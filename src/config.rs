use vstd::prelude::*;

verus! {

/// The settings the tool keeps between runs: the repository to search and a
/// free-text summary of the project.
#[derive(Debug)]
pub struct Config {
    pub project_dir: Option<String>,
    pub project_summary: String,
}

impl Default for Config {
    fn default() -> (r: Config)
        ensures
            r.project_dir is None,
            r.project_summary@.len() == 0,
    {
        Config { project_dir: None, project_summary: String::new() }
    }
}

impl Clone for Config {
    fn clone(&self) -> (r: Config)
        ensures
            r == *self,
    {
        Config {
            project_dir: crate::text::copy_text(&self.project_dir),
            project_summary: self.project_summary.clone(),
        }
    }
}

/// A store of the settings: loaded once at start, saved on request.
pub trait ConfigTrait: Sized {
    fn save(&self);

    fn open() -> Self;
}

/// The paths of a list, borrowed as text.
pub fn as_paths(v: &Vec<String>) -> (r: Vec<&str>)
    ensures
        r@.len() == v@.len(),
        forall|i: int| 0 <= i < v@.len() ==> #[trigger] r@[i]@ == v@[i]@,
{
    let mut out: Vec<&str> = Vec::new();
    for i in 0..v.len()
        invariant
            out@.len() == i,
            forall|j: int| 0 <= j < i ==> #[trigger] out@[j]@ == v@[j]@,
    {
        out.push(v[i].as_str());
    }
    out
}

} // verus!
