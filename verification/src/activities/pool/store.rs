//! Where the Toy Shielded Pool lives on disk and which proof system it uses. Paths are Unix
//! paths: absolute when they start with `/`, components separated by `/`.

use vstd::prelude::*;

use super::{system_from_key, system_key, system_key_round_trip, PoolSystem};
use crate::strings::{chars_of, push_char, push_str, string_of, trim, trim_end_spaces, trim_start, trimmed};

verus! {

/// Whether a path is absolute: it starts at the root.
pub open spec fn is_absolute(path: Seq<char>) -> bool {
    path.len() > 0 && path[0] == '/'
}

/// `part` (a relative path) appended to `base`, with a separator between them when `base` does
/// not end with one; an empty base gives `part` alone.
pub open spec fn path_join(base: Seq<char>, part: Seq<char>) -> Seq<char> {
    if base.len() == 0 || base.last() == '/' {
        base + part
    } else {
        base.push('/') + part
    }
}

/// An environment value that may name a directory: only an absolute path does.
pub open spec fn absolute(value: Option<Seq<char>>) -> Option<Seq<char>> {
    match value {
        Some(path) => if is_absolute(path) {
            Some(path)
        } else {
            None
        },
        None => None,
    }
}

/// The program's data directory: `explicit` when given; otherwise under `$XDG_DATA_HOME` or
/// `$HOME/.local/share`, or `$HOME/Library/Application Support` on macOS; `None` when no
/// directory can be named. Relative values of the variables are ignored, as the XDG
/// specification says.
pub open spec fn spec_resolve_root(
    explicit: Option<Seq<char>>,
    macos: bool,
    home: Option<Seq<char>>,
    xdg: Option<Seq<char>>,
) -> Option<Seq<char>> {
    match explicit {
        Some(dir) => Some(dir),
        None => {
            let home = absolute(home);
            let base = if macos {
                match home {
                    Some(h) => Some(path_join(path_join(h, "Library"@), "Application Support"@)),
                    None => None,
                }
            } else {
                match absolute(xdg) {
                    Some(x) => Some(x),
                    None => match home {
                        Some(h) => Some(path_join(path_join(h, ".local"@), "share"@)),
                        None => None,
                    },
                }
            };
            match base {
                Some(b) => Some(path_join(b, "nmtzk"@)),
                None => None,
            }
        },
    }
}

/// `base` joined with the relative path `part`.
pub fn join(base: &str, part: &str) -> (out: String)
    ensures
        out@ == path_join(base@, part@),
{
    let chars = chars_of(base);
    let mut out = string_of(chars.as_slice());
    if chars.len() > 0 && chars[chars.len() - 1] != '/' {
        push_char(&mut out, '/');
    }
    push_str(&mut out, part);
    out
}

/// An environment value, kept only when it is an absolute path.
fn absolute_path(value: Option<&str>) -> (out: Option<String>)
    ensures
        match (out, absolute(match value {
            Some(v) => Some(v@),
            None => None,
        })) {
            (Some(a), Some(b)) => a@ == b,
            (None, None) => true,
            _ => false,
        },
{
    match value {
        Some(v) => {
            let chars = chars_of(v);
            if chars.len() > 0 && chars[0] == '/' {
                Some(string_of(chars.as_slice()))
            } else {
                None
            }
        },
        None => None,
    }
}

/// The data directory from the flag, the platform and the two environment variables it reads,
/// so that each can be given here.
pub fn resolve_root(explicit: Option<&str>, macos: bool, home: Option<&str>, xdg: Option<&str>) -> (root: Option<String>)
    ensures
        match (root, spec_resolve_root(
            match explicit { Some(e) => Some(e@), None => None },
            macos,
            match home { Some(h) => Some(h@), None => None },
            match xdg { Some(x) => Some(x@), None => None },
        )) {
            (Some(a), Some(b)) => a@ == b,
            (None, None) => true,
            _ => false,
        },
{
    proof {
        reveal_strlit("Library");
        reveal_strlit("Application Support");
        reveal_strlit(".local");
        reveal_strlit("share");
        reveal_strlit("nmtzk");
    }
    if let Some(dir) = explicit {
        return Some(string_of(chars_of(dir).as_slice()));
    }
    let home = absolute_path(home);
    let base = if macos {
        match home {
            Some(h) => {
                let library = join(h.as_str(), "Library");
                Some(join(library.as_str(), "Application Support"))
            },
            None => None,
        }
    } else {
        match absolute_path(xdg) {
            Some(x) => Some(x),
            None => match home {
                Some(h) => {
                    let local = join(h.as_str(), ".local");
                    Some(join(local.as_str(), "share"))
                },
                None => None,
            },
        }
    };
    match base {
        Some(b) => Some(join(b.as_str(), "nmtzk")),
        None => None,
    }
}

/// The directory holding every pool: one subdirectory per proof system, and the system file.
pub fn pools(root: &str) -> (dir: String)
    ensures
        dir@ == path_join(root@, "pool"@),
{
    join(root, "pool")
}

/// Where the pool proved by `system` keeps its ledger and wallets.
pub fn pool_dir(root: &str, system: PoolSystem) -> (dir: String)
    ensures
        dir@ == path_join(path_join(root@, "pool"@), system_key(system)),
{
    let pools = pools(root);
    join(pools.as_str(), system.key())
}

/// The system a pool's system file names: its text without surrounding white space; Groth16
/// when there is no file or it names no system.
pub open spec fn spec_chosen(text: Option<Seq<char>>) -> PoolSystem {
    match text {
        Some(t) => match system_from_key(trimmed(t)) {
            Some(system) => system,
            None => PoolSystem::Groth16,
        },
        None => PoolSystem::Groth16,
    }
}

/// The proof system chosen with `use`, from the text of the system file when there is one.
pub fn chosen_system(text: Option<&str>) -> (system: PoolSystem)
    ensures
        system == spec_chosen(match text { Some(t) => Some(t@), None => None }),
{
    match text {
        Some(t) => {
            let key = string_of(trim(t).as_slice());
            match PoolSystem::from_key(key.as_str()) {
                Some(system) => system,
                None => PoolSystem::Groth16,
            }
        },
        None => PoolSystem::Groth16,
    }
}

/// The text of the system file that remembers `system`: its key and a newline.
pub fn system_file(system: PoolSystem) -> (text: String)
    ensures
        text@ == system_key(system).push('\n'),
{
    let mut text = string_of(chars_of(system.key()).as_slice());
    push_char(&mut text, '\n');
    text
}

/// What the system file remembers is what is read back: the file written for a system names that
/// system.
pub proof fn system_file_round_trip(system: PoolSystem)
    ensures
        spec_chosen(Some(system_key(system).push('\n'))) == system,
{
    reveal_strlit("groth16");
    reveal_strlit("halo2");
    let key = system_key(system);
    assert(key.push('\n').drop_last() =~= key);
    assert(trim_end_spaces(key) == key);
    assert(trim_end_spaces(key.push('\n')) == key);
    assert(trim_start(key) == key);
    system_key_round_trip(system);
}

} // verus!
