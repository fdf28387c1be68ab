use vstd::prelude::*;
use vstd::string::StringExecFns;

verus! {

/// The path under which the ignore file is looked up: the explicit override
/// when one was given, else `.dockerignore` directly under the root.
pub fn resolve_ignore_path(root: &str, explicit: Option<&String>) -> (r: String)
    ensures
        explicit matches Some(p) ==> r@ == p@,
        explicit is None ==> r@ == root@ + "/.dockerignore"@,
{
    match explicit {
        Some(p) => p.clone(),
        None => {
            let mut s = String::from_str(root);
            s.append("/.dockerignore");
            s
        },
    }
}

/// The line printed for one file: the root-relative path as it stands, or,
/// in absolute mode, the root joined to it with a separator, so that every
/// absolute line begins with the root.
pub fn format_output_path(root: &str, rel: &str, absolute: bool) -> (r: String)
    ensures
        !absolute ==> r@ == rel@,
        absolute ==> r@ == root@ + "/"@ + rel@,
        absolute ==> r@.len() >= root@.len() && r@.subrange(0, root@.len() as int) == root@,
{
    if absolute {
        let mut s = String::from_str(root);
        s.append("/");
        s.append(rel);
        proof {
            assert(s@.subrange(0, root@.len() as int) =~= root@);
        }
        s
    } else {
        String::from_str(rel)
    }
}

} // verus!
