use vstd::prelude::*;
use vstd::string::{StrSliceExecFns, StringExecFns};

verus! {

/// What a launch configuration holds: executable path, ordered arguments,
/// environment overrides in the order they were first set, and the working
/// directory (`None`: inherited from the host).
pub struct LaunchConfigView {
    pub exe: Seq<char>,
    pub args: Seq<Seq<char>>,
    pub env: Seq<(Seq<char>, Seq<char>)>,
    pub cwd: Option<Seq<char>>,
}

/// No two environment overrides share a name.
pub open spec fn env_keys_unique(env: Seq<(Seq<char>, Seq<char>)>) -> bool {
    forall|i: int, j: int| 0 <= i < j < env.len() ==> #[trigger] env[i].0 != #[trigger] env[j].0
}

/// `i` is the first position of an override named `name`.
pub open spec fn first_index_of(env: Seq<(Seq<char>, Seq<char>)>, name: Seq<char>, i: int) -> bool {
    &&& 0 <= i < env.len()
    &&& env[i].0 == name
    &&& forall|j: int| 0 <= j < i ==> #[trigger] env[j].0 != name
}

/// The first position of an override named `name`, if there is one.
pub open spec fn env_index_of(env: Seq<(Seq<char>, Seq<char>)>, name: Seq<char>) -> Option<int> {
    if exists|i: int| first_index_of(env, name, i) {
        Some(choose|i: int| first_index_of(env, name, i))
    } else {
        None
    }
}

/// The overrides after setting `name` to `value`: an override of that name
/// takes the new value in place, otherwise a new one goes at the end.
pub open spec fn env_with(
    env: Seq<(Seq<char>, Seq<char>)>,
    name: Seq<char>,
    value: Seq<char>,
) -> Seq<(Seq<char>, Seq<char>)> {
    match env_index_of(env, name) {
        Some(i) => env.update(i, (name, value)),
        None => env.push((name, value)),
    }
}

/// `rel` resolved against the directory `base`: with a separator between
/// them unless `base` is empty or already ends with one.
pub open spec fn joined(base: Seq<char>, rel: Seq<char>) -> Seq<char> {
    if base.len() == 0 {
        rel
    } else if base.last() == '/' {
        base + rel
    } else {
        base + seq!['/'] + rel
    }
}

/// Interpreter of the backend, relative to the application root.
pub open spec fn backend_interpreter() -> Seq<char> {
    "venv/bin/python"@
}

/// Entry-point script of the backend, relative to the application root.
pub open spec fn backend_script() -> Seq<char> {
    "backend/tauri_server.py"@
}

/// Variable through which the backend finds the project's modules.
pub open spec fn backend_search_path_var() -> Seq<char> {
    "PYTHONPATH"@
}

/// The backend's launch configuration for the application root `root`:
/// interpreter and script resolved against the root, the root on the
/// module search path, the working directory inherited.
pub open spec fn backend_config_of(root: Seq<char>) -> LaunchConfigView {
    LaunchConfigView {
        exe: joined(root, backend_interpreter()),
        args: seq![joined(root, backend_script())],
        env: seq![(backend_search_path_var(), root)],
        cwd: None,
    }
}

/// Resolves `rel` against the directory `base`.
pub fn join_path(base: &str, rel: &str) -> (r: String)
    ensures
        r@ == joined(base@, rel@),
{
    let n = base.unicode_len();
    let mut r = String::from_str(base);
    if n > 0 && base.get_char(n - 1) != '/' {
        r.append("/");
        proof {
            reveal_strlit("/");
        }
    }
    r.append(rel);
    proof {
        if n > 0 {
            assert(base@.last() == base@[n - 1]);
        }
        if base@.len() > 0 && base@.last() != '/' {
            assert(base@ + seq!['/'] + rel@ =~= r@);
        }
    }
    r
}

/// Everything needed to create one child process.
pub struct LaunchConfig {
    exe: String,
    args: Vec<String>,
    env: Vec<(String, String)>,
    cwd: Option<String>,
}

pub open spec fn env_view(env: Seq<(String, String)>) -> Seq<(Seq<char>, Seq<char>)> {
    env.map_values(|p: (String, String)| (p.0@, p.1@))
}

impl View for LaunchConfig {
    type V = LaunchConfigView;

    closed spec fn view(&self) -> LaunchConfigView {
        LaunchConfigView {
            exe: self.exe@,
            args: self.args@.map_values(|s: String| s@),
            env: env_view(self.env@),
            cwd: match self.cwd {
                Some(d) => Some(d@),
                None => None,
            },
        }
    }
}

impl LaunchConfig {
    /// A configuration that runs `exe` with no arguments, no overrides and
    /// the inherited working directory.
    pub fn new(exe: &str) -> (r: LaunchConfig)
        ensures
            r@ == (LaunchConfigView { exe: exe@, args: Seq::empty(), env: Seq::empty(), cwd: None }),
    {
        let r = LaunchConfig { exe: String::from_str(exe), args: Vec::new(), env: Vec::new(), cwd: None };
        assert(r@.args =~= Seq::<Seq<char>>::empty());
        assert(r@.env =~= Seq::<(Seq<char>, Seq<char>)>::empty());
        assert(env_keys_unique(r@.env));
        r
    }

    /// Adds `a` after the arguments given so far.
    pub fn arg(&mut self, a: &str)
        ensures
            final(self)@ == (LaunchConfigView { args: old(self)@.args.push(a@), ..old(self)@ }),
    {
        self.args.push(String::from_str(a));
        assert(self@.args =~= old(self)@.args.push(a@));
    }

    /// Sets the override of the variable `name` to `value`, in place if one
    /// of that name exists.
    pub fn env(&mut self, name: &str, value: &str)
        ensures
            final(self)@ == (LaunchConfigView { env: env_with(old(self)@.env, name@, value@), ..old(self)@ }),
            env_keys_unique(old(self)@.env) ==> env_keys_unique(final(self)@.env),
    {
        let ghost old_env = env_view(self.env@);
        let n = String::from_str(name);
        let v = String::from_str(value);
        let mut i: usize = 0;
        while i < self.env.len()
            invariant
                i <= self.env.len(),
                *self == *old(self),
                old_env == env_view(self.env@),
                n@ == name@,
                v@ == value@,
                forall|k: int| 0 <= k < i ==> #[trigger] old_env[k].0 != name@,
            decreases self.env.len() - i,
        {
            if self.env[i].0 == n {
                proof {
                    assert(old_env[i as int].0 == name@);
                    assert(first_index_of(old_env, name@, i as int));
                    assert(env_index_of(old_env, name@) == Some(i as int)) by {
                        let j = choose|j: int| first_index_of(old_env, name@, j);
                        if j < i {
                            assert(old_env[j].0 != name@);
                        } else if j > i {
                            assert(old_env[i as int].0 != name@);
                        }
                    }
                }
                self.env[i] = (n, v);
                assert(env_view(self.env@) =~= old_env.update(i as int, (name@, value@)));
                assert(self@.args =~= old(self)@.args);
                assert(env_keys_unique(old_env) ==> env_keys_unique(self@.env)) by {
                    if env_keys_unique(old_env) {
                        assert forall|a: int, b: int| 0 <= a < b < self@.env.len() implies
                            #[trigger] self@.env[a].0 != #[trigger] self@.env[b].0 by {
                            assert(self@.env[a].0 == old_env[a].0);
                            assert(self@.env[b].0 == old_env[b].0);
                        }
                    }
                }
                return;
            }
            i = i + 1;
        }
        assert(env_index_of(old_env, name@) is None) by {
            if exists|j: int| first_index_of(old_env, name@, j) {
                let j = choose|j: int| first_index_of(old_env, name@, j);
                assert(old_env[j].0 != name@);
            }
        }
        self.env.push((n, v));
        assert(env_view(self.env@) =~= old_env.push((name@, value@)));
        assert(self@.args =~= old(self)@.args);
        assert(env_keys_unique(old_env) ==> env_keys_unique(self@.env)) by {
            if env_keys_unique(old_env) {
                assert forall|a: int, b: int| 0 <= a < b < self@.env.len() implies
                    #[trigger] self@.env[a].0 != #[trigger] self@.env[b].0 by {
                    assert(self@.env[a].0 == old_env[a].0);
                    if b < old_env.len() {
                        assert(self@.env[b].0 == old_env[b].0);
                    }
                }
            }
        }
    }

    /// Sets the working directory of the child.
    pub fn current_dir(&mut self, dir: &str)
        ensures
            final(self)@ == (LaunchConfigView { cwd: Some(dir@), ..old(self)@ }),
    {
        self.cwd = Some(String::from_str(dir));
        assert(self@.args =~= old(self)@.args);
        assert(self@.env =~= old(self)@.env);
    }

    pub fn exe(&self) -> (r: &str)
        ensures
            r@ == self@.exe,
    {
        self.exe.as_str()
    }

    pub fn args(&self) -> (r: &Vec<String>)
        ensures
            r@.map_values(|s: String| s@) == self@.args,
    {
        &self.args
    }

    pub fn env_vars(&self) -> (r: &Vec<(String, String)>)
        ensures
            env_view(r@) == self@.env,
    {
        &self.env
    }

    pub fn working_dir(&self) -> (r: Option<&str>)
        ensures
            r matches Some(d) ==> self@.cwd == Some(d@),
            r is None ==> self@.cwd is None,
    {
        match &self.cwd {
            Some(d) => Some(d.as_str()),
            None => None,
        }
    }
}

/// The launch configuration of the backend for the application root `root`.
pub fn backend_launch_config(root: &str) -> (r: LaunchConfig)
    ensures
        r@ == backend_config_of(root@),
        env_keys_unique(r@.env),
{
    let exe = join_path(root, "venv/bin/python");
    let mut r = LaunchConfig::new(exe.as_str());
    let script = join_path(root, "backend/tauri_server.py");
    r.arg(script.as_str());
    r.env("PYTHONPATH", root);
    proof {
        let e = Seq::<(Seq<char>, Seq<char>)>::empty();
        assert(!(exists|i: int| first_index_of(e, backend_search_path_var(), i)));
        assert(r@.args =~= seq![joined(root@, backend_script())]);
        assert(r@.env =~= seq![(backend_search_path_var(), root@)]);
    }
    r
}

} // verus!
