//! Counters, and their rendering as Prometheus text for `GET /__metrics`.
use vstd::prelude::*;
use vstd::string::*;

use crate::text::{decimal, decimal_text};

verus! {

/// What the proxy counts. Each counter wraps around at the end of its range.
#[derive(Clone, Copy, Debug, PartialEq, Eq, Structural)]
pub struct Metrics {
    pub requests_total: u64,
    pub requests_blocked_by_plugin: u64,
    pub backend_errors_total: u64,
    pub backend_timeouts_total: u64,
}

impl Default for Metrics {
    fn default() -> (r: Self)
        ensures
            r == (Metrics {
                requests_total: 0,
                requests_blocked_by_plugin: 0,
                backend_errors_total: 0,
                backend_timeouts_total: 0,
            }),
    {
        Metrics {
            requests_total: 0,
            requests_blocked_by_plugin: 0,
            backend_errors_total: 0,
            backend_timeouts_total: 0,
        }
    }
}

/// A counter after one more event.
pub open spec fn counted(n: u64) -> u64 {
    n.wrapping_add(1)
}

/// One metric: its help line, its type line, its value.
pub open spec fn metric_text(name: Seq<char>, help: Seq<char>, value: u64) -> Seq<char> {
    "# HELP "@ + name + " "@ + help + "\n# TYPE "@ + name + " counter\n"@ + name + " "@ + decimal(
        value as nat,
    ) + "\n"@
}

/// One metric: its help line, its type line, its value.
fn push_metric(out: &mut String, name: &str, help: &str, value: u64)
    ensures
        final(out)@ == old(out)@ + metric_text(name@, help@, value),
{
    out.append("# HELP ");
    out.append(name);
    out.append(" ");
    out.append(help);
    out.append("\n# TYPE ");
    out.append(name);
    out.append(" counter\n");
    out.append(name);
    out.append(" ");
    let digits = decimal_text(value);
    out.append(digits.as_str());
    out.append("\n");
    assert(out@ =~= old(out)@ + metric_text(name@, help@, value));
}

impl Metrics {
    /// The counters with one more request received.
    pub open spec fn with_request(self) -> Metrics {
        Metrics { requests_total: counted(self.requests_total), ..self }
    }

    /// The counters with one more request blocked by a plugin.
    pub open spec fn with_block(self) -> Metrics {
        Metrics { requests_blocked_by_plugin: counted(self.requests_blocked_by_plugin), ..self }
    }

    /// The counters with one more failure to reach a backend.
    pub open spec fn with_backend_error(self) -> Metrics {
        Metrics { backend_errors_total: counted(self.backend_errors_total), ..self }
    }

    /// The counters with one more backend that did not answer in time.
    pub open spec fn with_backend_timeout(self) -> Metrics {
        Metrics { backend_timeouts_total: counted(self.backend_timeouts_total), ..self }
    }

    /// Counts a request received.
    pub fn count_request(&mut self)
        ensures
            *final(self) == old(self).with_request(),
    {
        self.requests_total = self.requests_total.wrapping_add(1);
    }

    /// Counts a request blocked by a plugin.
    pub fn count_block(&mut self)
        ensures
            *final(self) == old(self).with_block(),
    {
        self.requests_blocked_by_plugin = self.requests_blocked_by_plugin.wrapping_add(1);
    }

    /// Counts a failure to reach a backend.
    pub fn count_backend_error(&mut self)
        ensures
            *final(self) == old(self).with_backend_error(),
    {
        self.backend_errors_total = self.backend_errors_total.wrapping_add(1);
    }

    /// Counts a backend that did not answer in time.
    pub fn count_backend_timeout(&mut self)
        ensures
            *final(self) == old(self).with_backend_timeout(),
    {
        self.backend_timeouts_total = self.backend_timeouts_total.wrapping_add(1);
    }

    /// The counters as Prometheus text.
    pub open spec fn prometheus(self) -> Seq<char> {
        metric_text(
            "wasm_proxy_requests_total"@,
            "Nombre total de requêtes reçues"@,
            self.requests_total,
        ) + metric_text(
            "wasm_proxy_requests_blocked_by_plugin_total"@,
            "Requêtes bloquées par un plugin"@,
            self.requests_blocked_by_plugin,
        ) + metric_text(
            "wasm_proxy_backend_errors_total"@,
            "Échecs de communication avec un backend"@,
            self.backend_errors_total,
        ) + metric_text(
            "wasm_proxy_backend_timeouts_total"@,
            "Requêtes backend ayant dépassé le timeout"@,
            self.backend_timeouts_total,
        )
    }

    /// The counters as Prometheus text.
    pub fn render_prometheus(&self) -> (r: String)
        ensures
            r@ == self.prometheus(),
    {
        let mut out = String::new();
        push_metric(
            &mut out,
            "wasm_proxy_requests_total",
            "Nombre total de requêtes reçues",
            self.requests_total,
        );
        push_metric(
            &mut out,
            "wasm_proxy_requests_blocked_by_plugin_total",
            "Requêtes bloquées par un plugin",
            self.requests_blocked_by_plugin,
        );
        push_metric(
            &mut out,
            "wasm_proxy_backend_errors_total",
            "Échecs de communication avec un backend",
            self.backend_errors_total,
        );
        push_metric(
            &mut out,
            "wasm_proxy_backend_timeouts_total",
            "Requêtes backend ayant dépassé le timeout",
            self.backend_timeouts_total,
        );
        assert(out@ =~= self.prometheus());
        out
    }
}

} // verus!
