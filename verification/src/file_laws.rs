//! What becomes of plugin files.
use vstd::prelude::*;
use vstd::string::*;

use crate::hot_reload::{fault_at, holds_named_plugins};
use crate::plugin::{
    are_sources_of, begins_as_binary, binary_module, file_fault, names_text, Plugin, PluginError,
    PluginSource,
};
use crate::proxy::ProxySnapshot;
use crate::sandbox::{bytes_in, is_wasm_module, text_module};

verus! {

/// Whether a path ends in `.wat`.
pub open spec fn ends_in_wat(path: Seq<char>) -> bool {
    let n = path.len();
    &&& n >= 4
    &&& path[n - 4] == '.'
    &&& path[n - 3] == 'w'
    &&& path[n - 2] == 'a'
    &&& path[n - 1] == 't'
}

/// Whether bytes begin with a zero and `asm`.
pub open spec fn begins_with_magic(code: Seq<u8>) -> bool {
    &&& code.len() >= 4
    &&& code[0] == 0
    &&& code[1] == 97
    &&& code[2] == 115
    &&& code[3] == 109
}

/// The module of a file is the very bytes of the file, unless it is a text in a `.wat`
/// file, which is assembled.
pub proof fn law_a_file_is_its_module(path: Seq<char>, code: Seq<u8>)
    ensures
        names_text(path) == ends_in_wat(path),
        begins_as_binary(code) == begins_with_magic(code),
        !ends_in_wat(path) ==> binary_module(path, code) == Some(code),
        begins_with_magic(code) ==> binary_module(path, code) == Some(code),
        ends_in_wat(path) && !begins_with_magic(code) && code.len() <= 0x7FFF_FFFF
            ==> binary_module(path, code) == text_module(code),
        ends_in_wat(path) && !begins_with_magic(code) && code.len() > 0x7FFF_FFFF
            ==> binary_module(path, code) is None,
{
    reveal_strlit(".wat");
    let n = path.len();
    if n >= 4 {
        let tail = path.subrange(n - 4, n as int);
        assert(tail[0] == path[n - 4] && tail[1] == path[n - 3] && tail[2] == path[n - 2]
            && tail[3] == path[n - 1]);
        if ends_in_wat(path) {
            assert(tail =~= ".wat"@);
        }
    }
    let magic = seq![0u8, 97u8, 115u8, 109u8];
    assert(magic[0] == 0 && magic[1] == 97 && magic[2] == 115 && magic[3] == 109);
    if code.len() >= 4 {
        let head = code.subrange(0, 4);
        assert(head[0] == code[0] && head[1] == code[1] && head[2] == code[2] && head[3]
            == code[3]);
        if begins_with_magic(code) {
            assert(head =~= magic);
        }
    }
}

/// The bytes of a result are its own, and none where there is none.
pub proof fn law_a_result_holds_its_bytes(r: Option<Vec<u8>>)
    ensures
        match r {
            Some(bytes) => bytes_in(r) == Some(bytes@),
            None => bytes_in(r) is None,
        },
{
}

/// A file has a fault exactly where it was not read or holds no module, and the fault
/// tells which.
pub proof fn law_faults_tell_what_is_wrong(path: Seq<char>, code: Seq<u8>)
    ensures
        file_fault(path, None) == Some(PluginError::Unreadable),
        file_fault(path, Some(code)) == (if binary_module(path, code) matches Some(binary)
            && is_wasm_module(binary) {
            None
        } else {
            Some(PluginError::InvalidModule)
        }),
{
}

/// A plugin that was loaded from a file goes by the file's path and runs the file's
/// module.
pub proof fn law_a_plugin_is_its_file(plugin: Plugin, source: PluginSource)
    requires
        plugin.loaded_from(source),
    ensures
        plugin.path() == source.path@,
        source.code matches Some(code) && {
            &&& !ends_in_wat(source.path@) || begins_with_magic(code@) ==> plugin.code() == code@
            &&& ends_in_wat(source.path@) && !begins_with_magic(code@) ==> text_module(code@)
                == Some(plugin.code())
        },
{
    law_a_file_is_its_module(source.path@, source.code->0@);
}

/// A source has the fault of its file.
pub proof fn law_a_source_has_the_fault_of_its_file(source: PluginSource)
    ensures
        source.code is None <==> source.fault() == Some(PluginError::Unreadable),
        source.code matches Some(code) ==> {
            &&& source.fault() is None || source.fault() == Some(PluginError::InvalidModule)
            &&& source.fault() is None <==> (binary_module(source.path@, code@) matches Some(
                binary,
            ) && is_wasm_module(binary))
        },
{
}

/// Sources go by the paths, in order, each with what was read of it.
pub proof fn law_sources_are_in_order(
    sources: Seq<PluginSource>,
    paths: Seq<String>,
    contents: Seq<Option<Vec<u8>>>,
    i: int,
)
    requires
        are_sources_of(sources, paths, contents),
    ensures
        sources.len() == paths.len(),
        0 <= i < paths.len() ==> {
            &&& sources[i].path@ == paths[i]@
            &&& sources[i].code is Some <==> i < contents.len() && contents[i] is Some
            &&& sources[i].code matches Some(code) ==> code@ == contents[i]->0@
        },
{
    if 0 <= i < paths.len() {
        assert(sources[i].path@ == paths[i]@);
    }
}

/// A reloaded snapshot has the plugins that its configuration names, in order, each
/// with the module of its file.
pub proof fn law_a_reload_loads_what_is_named(
    snapshot: ProxySnapshot,
    contents: Seq<Option<Vec<u8>>>,
    i: int,
)
    requires
        holds_named_plugins(snapshot, contents),
    ensures
        snapshot.plugins@.len() == snapshot.config.plugins@.len(),
        0 <= i < snapshot.config.plugins@.len() ==> {
            let path = snapshot.config.plugins@[i]@;
            let plugin = snapshot.plugins@[i];
            &&& plugin.path() == path
            &&& is_wasm_module(plugin.code())
            &&& i < contents.len()
            &&& contents[i] matches Some(code)
            &&& !ends_in_wat(path) || begins_with_magic(code@) ==> plugin.code() == code@
            &&& ends_in_wat(path) && !begins_with_magic(code@) ==> text_module(code@) == Some(
                plugin.code(),
            )
        },
{
    if 0 <= i < snapshot.config.plugins@.len() {
        assert(snapshot.plugins@[i].path() == snapshot.config.plugins@[i]@);
        law_a_file_is_its_module(snapshot.config.plugins@[i]@, contents[i]->0@);
    }
}

/// The fault that a reload finds at a place is that of the file named there: it was
/// not read, or holds no module.
pub proof fn law_a_reload_finds_the_fault_of_the_file(
    paths: Seq<String>,
    contents: Seq<Option<Vec<u8>>>,
    i: int,
)
    requires
        0 <= i < paths.len(),
    ensures
        fault_at(paths, contents, i) == Some(PluginError::Unreadable) <==> i >= contents.len()
            || contents[i] is None,
        i < contents.len() ==> (contents[i] matches Some(code) ==> {
            &&& fault_at(paths, contents, i) is None <==> (binary_module(
                paths[i]@,
                code@,
            ) matches Some(binary) && is_wasm_module(binary))
            &&& fault_at(paths, contents, i) is Some ==> fault_at(paths, contents, i) == Some(
                PluginError::InvalidModule,
            )
        }),
{
}

} // verus!
