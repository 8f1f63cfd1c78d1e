//! Paths, as strings: the data folder beside an archive and the folders the
//! host keeps.

use vstd::prelude::*;

verus! {

/// What `Path::parent` returns for a path.
pub uninterp spec fn parent_of(p: Seq<char>) -> Option<Seq<char>>;

/// What `Path::join` returns for a base and a relative name.
pub uninterp spec fn path_joined(base: Seq<char>, name: Seq<char>) -> Seq<char>;

/// Relies on `Path::parent`: the result depends on the characters alone.
#[verifier::external_body]
pub(crate) fn parent_path(p: &str) -> (r: Option<String>)
    ensures
        match r {
            Some(s) => parent_of(p@) == Some(s@),
            None => parent_of(p@) is None,
        },
{
    match std::path::Path::new(p).parent() {
        Some(q) => Some(q.to_string_lossy().into_owned()),
        None => None,
    }
}

/// Relies on `Path::join`: the result depends on the characters alone.
#[verifier::external_body]
pub(crate) fn join_path(base: &str, name: &str) -> (r: String)
    ensures
        r@ == path_joined(base@, name@),
{
    std::path::Path::new(base).join(name).to_string_lossy().into_owned()
}

/// The folders the host keeps under its data folder.
pub struct PatchBukkitDirectories {
    pub base: String,
    pub plugins: String,
    pub plugin_updates: String,
    pub j4rs: String,
    pub jassets: String,
}

/// The folders under `base`: the plugins folder with its `update` folder,
/// and the runtime's folder with its `jassets` folder.
pub fn directories_for(base: &str) -> (r: PatchBukkitDirectories)
    ensures
        r.base@ == base@,
        r.plugins@ == path_joined(base@, "patchbukkit-plugins"@),
        r.plugin_updates@ == path_joined(r.plugins@, "update"@),
        r.j4rs@ == path_joined(base@, "j4rs"@),
        r.jassets@ == path_joined(r.j4rs@, "jassets"@),
{
    let plugins = join_path(base, "patchbukkit-plugins");
    let plugin_updates = join_path(plugins.as_str(), "update");
    let j4rs = join_path(base, "j4rs");
    let jassets = join_path(j4rs.as_str(), "jassets");
    PatchBukkitDirectories { base: base.to_owned(), plugins, plugin_updates, j4rs, jassets }
}

/// Whether a bundled resource must be written out: the file is missing, or
/// what it holds differs from the bundled bytes.
pub fn resource_needs_write(existing: Option<&Vec<u8>>, data: &Vec<u8>) -> (r: bool)
    ensures
        r == match existing {
            Some(e) => e@ != data@,
            None => true,
        },
{
    match existing {
        None => true,
        Some(e) => {
            if e.len() != data.len() {
                return true;
            }
            let mut i: usize = 0;
            while i < e.len()
                invariant
                    i <= e.len(),
                    e.len() == data.len(),
                    existing == Some(e),
                    forall|j: int| 0 <= j < i ==> e@[j] == data@[j],
                decreases e.len() - i,
            {
                if e[i] != data[i] {
                    assert(e@[i as int] != data@[i as int]);
                    return true;
                }
                i = i + 1;
            }
            assert(e@ =~= data@);
            false
        },
    }
}

} // verus!
