//! The environment of a run, as a list of variables.

use vstd::prelude::*;
use vstd::string::*;

use crate::text::same;

verus! {

/// The names and values of the variables.
pub open spec fn variables(env: Seq<(String, String)>) -> Seq<(Seq<char>, Seq<char>)> {
    env.map_values(|v: (String, String)| (v.0@, v.1@))
}

/// The value of the variable with the given name; of several the first counts.
pub open spec fn var_in(env: Seq<(Seq<char>, Seq<char>)>, name: Seq<char>) -> Option<Seq<char>>
    decreases env.len(),
{
    if env.len() == 0 {
        None
    } else if env[0].0 == name {
        Some(env[0].1)
    } else {
        var_in(env.skip(1), name)
    }
}

/// The value of the variable with the given name.
pub fn lookup<'a>(env: &'a [(String, String)], name: &str) -> (r: Option<&'a str>)
    ensures
        match r {
            Some(v) => var_in(variables(env@), name@) == Some(v@),
            None => var_in(variables(env@), name@) is None,
        },
{
    let ghost all = variables(env@);
    let mut i: usize = 0;
    assert(all.skip(0) =~= all);
    while i < env.len()
        invariant
            i <= env@.len(),
            all == variables(env@),
            var_in(all, name@) == var_in(all.skip(i as int), name@),
        decreases env@.len() - i,
    {
        assert(all.skip(i as int).skip(1) =~= all.skip(i + 1));
        assert(all.skip(i as int)[0] == (env@[i as int].0@, env@[i as int].1@));
        if same(env[i].0.as_str(), name) {
            return Some(env[i].1.as_str());
        }
        i += 1;
    }
    None
}

/// A variable has the value of the first entry with its name, and none where there is no such entry.
pub proof fn law_variable(env: Seq<(Seq<char>, Seq<char>)>, name: Seq<char>)
    ensures
        match var_in(env, name) {
            Some(v) => exists|i: int|
                {
                    &&& 0 <= i < env.len()
                    &&& #[trigger] env[i] == (name, v)
                    &&& forall|j: int| 0 <= j < i ==> (#[trigger] env[j]).0 != name
                },
            None => forall|j: int| 0 <= j < env.len() ==> (#[trigger] env[j]).0 != name,
        },
    decreases env.len(),
{
    if env.len() > 0 {
        let rest = env.skip(1);
        law_variable(rest, name);
        if env[0].0 != name {
            match var_in(rest, name) {
                Some(v) => {
                    let i = choose|i: int|
                        {
                            &&& 0 <= i < rest.len()
                            &&& #[trigger] rest[i] == (name, v)
                            &&& forall|j: int| 0 <= j < i ==> (#[trigger] rest[j]).0 != name
                        };
                    assert(env[i + 1] == (name, v));
                    assert forall|j: int| 0 <= j < i + 1 implies (#[trigger] env[j]).0 != name by {
                        if j > 0 {
                            assert(rest[j - 1] == env[j]);
                        }
                    }
                },
                None => {
                    assert forall|j: int| 0 <= j < env.len() implies (#[trigger] env[j]).0
                        != name by {
                        if j > 0 {
                            assert(rest[j - 1] == env[j]);
                        }
                    }
                },
            }
        } else {
            assert(env[0] == (name, env[0].1));
        }
    }
}

/// The variables stand for their names and values, one by one.
pub proof fn law_variables(env: Seq<(String, String)>)
    ensures
        variables(env).len() == env.len(),
        forall|i: int|
            0 <= i < env.len() ==> #[trigger] variables(env)[i] == (env[i].0@, env[i].1@),
{
}

} // verus!
