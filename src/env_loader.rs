//! Settings: where the settings file is found, and values with defaults.
use vstd::prelude::*;

use crate::Error;

verus! {

/// Settings lookup.
pub struct EnvLoader;

/// The first candidate settings file that exists, by position.
pub open spec fn first_present(exists: Seq<bool>, k: int) -> bool {
    0 <= k < exists.len() && exists[k] && forall|j: int| 0 <= j < k ==> !exists[j]
}

impl EnvLoader {
    /// Picks the first of the candidate settings files that exists; `exists[i]`
    /// tells whether `candidates[i]` does.
    pub fn check_env_file(candidates: &Vec<String>, exists: &Vec<bool>) -> (r: (bool, Option<String>))
        requires
            candidates@.len() == exists@.len(),
        ensures
            r.0 == (exists|k: int| 0 <= k < exists@.len() && exists@[k]),
            r.0 == (r.1 is Some),
            r.1 matches Some(path) ==> exists|k: int|
                first_present(exists@, k) && path@ == candidates@[k]@,
    {
        let mut i: usize = 0;
        while i < exists.len()
            invariant
                candidates@.len() == exists@.len(),
                i <= exists@.len(),
                forall|j: int| 0 <= j < i ==> !exists@[j],
            decreases exists@.len() - i,
        {
            if exists[i] {
                assert(first_present(exists@, i as int));
                return (true, Some(candidates[i].clone()));
            }
            i = i + 1;
        }
        (false, None)
    }

    /// The value of a setting: the value that was found, else the default, else
    /// an error that names the setting.
    pub fn resolve(key: &str, value: Option<String>, default: Option<&str>) -> (r: Result<String, Error>)
        ensures
            value matches Some(v) ==> r == Ok::<String, Error>(v),
            value is None && default is Some ==> (r matches Ok(s) && s@ == default->Some_0@),
            value is None && default is None ==> (r matches Err(Error::EnvVar(m)) && m@
                == "环境变量 "@ + key@ + " 未设置"@),
    {
        match value {
            Some(v) => Ok(v),
            None => match default {
                Some(d) => Ok(String::from_str(d)),
                None => Err(
                    Error::EnvVar(String::from_str("环境变量 ").concat(key).concat(" 未设置")),
                ),
            },
        }
    }
}

} // verus!
