//! Pure path construction and the global index of repositories that own a
//! backlog. Reading the current directory, the home directory and the files
//! themselves is the caller's business; these functions only compute.

use vstd::prelude::*;
use vstd::string::StringExecFns;

verus! {

/// The process-wide index of repository paths that have a backlog, with an
/// explicit load-mutate-save lifecycle owned by the caller.
pub struct GlobalIndex {
    pub repos: Vec<String>,
}

impl View for GlobalIndex {
    type V = Seq<Seq<char>>;

    open spec fn view(&self) -> Seq<Seq<char>> {
        self.repos@.map_values(|s: String| s@)
    }
}

impl GlobalIndex {
    pub fn new() -> (r: GlobalIndex)
        ensures
            r@ == Seq::<Seq<char>>::empty(),
    {
        let r = GlobalIndex { repos: Vec::new() };
        proof {
            assert(r@ =~= Seq::<Seq<char>>::empty());
        }
        r
    }
}

/// The backlog file's path inside a repository: `<root>/.todo/backlog.json`.
pub fn get_repo_backlog_path(repo_root: &str) -> (r: String)
    ensures
        r@ == repo_root@ + "/.todo/backlog.json"@,
{
    let mut r = repo_root.to_owned();
    r.append("/.todo/backlog.json");
    r
}

/// The global index file's path: `<home>/.backlog/index.json`.
pub fn get_global_index_path(home_dir: &str) -> (r: String)
    ensures
        r@ == home_dir@ + "/.backlog/index.json"@,
{
    let mut r = home_dir.to_owned();
    r.append("/.backlog/index.json");
    r
}

/// Adds a repository path to the index unless it is already listed; says
/// whether the index changed and so must be saved.
#[verifier::loop_isolation(false)]
pub fn register_repo(index: &mut GlobalIndex, repo_path: &str) -> (added: bool)
    ensures
        added == !old(index)@.contains(repo_path@),
        added ==> final(index)@ == old(index)@.push(repo_path@),
        !added ==> final(index)@ == old(index)@,
{
    let p = repo_path.to_owned();
    let mut i: usize = 0;
    while i < index.repos.len()
        invariant
            i <= index.repos.len(),
            p@ == repo_path@,
            forall|q: int| 0 <= q < i ==> #[trigger] index@[q] != repo_path@,
        decreases index.repos.len() - i,
    {
        if index.repos[i] == p {
            proof {
                assert(index@[i as int] == repo_path@);
                assert(index@.contains(repo_path@));
            }
            return false;
        }
        proof {
            assert(index@[i as int] == index.repos@[i as int]@);
        }
        i = i + 1;
    }
    proof {
        assert(!old(index)@.contains(repo_path@)) by {
            if old(index)@.contains(repo_path@) {
                let q = choose|q: int|
                    0 <= q < old(index)@.len() && old(index)@[q] == repo_path@;
                assert(index@[q] != repo_path@);
            }
        }
    }
    index.repos.push(p);
    proof {
        assert(index@ =~= old(index)@.push(repo_path@));
    }
    true
}

} // verus!
