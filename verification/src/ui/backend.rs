//! Backend generations and the launch options of the local PTY backend.

use vstd::prelude::*;

verus! {

/// Monotonically increasing identifier for one backend start attempt.
#[derive(Clone, Copy, Debug, PartialEq, Eq, Hash, Structural)]
pub struct BackendGeneration(u64);

impl View for BackendGeneration {
    type V = u64;

    closed spec fn view(&self) -> u64 {
        self.0
    }
}

impl BackendGeneration {
    /// Numeric value useful for logging and host correlation.
    pub fn value(self) -> (value: u64)
        ensures
            value == self@,
    {
        self.0
    }

    /// Generation used for the first backend attached to a widget.
    pub fn initial() -> (generation: Self)
        ensures
            generation@ == 1,
    {
        BackendGeneration(1)
    }

    /// Return the following generation, saturating at the integer limit.
    pub fn next(self) -> (generation: Self)
        ensures
            generation@ == if self@ == u64::MAX {
                u64::MAX
            } else {
                (self@ + 1) as u64
            },
    {
        BackendGeneration(self.0.saturating_add(1))
    }
}

/// Generations never decrease, and increase until the integer limit.
pub proof fn lemma_generation_monotone(generation: BackendGeneration, following: BackendGeneration)
    requires
        following@ == if generation@ == u64::MAX {
            u64::MAX
        } else {
            (generation@ + 1) as u64
        },
    ensures
        generation@ <= following@,
        generation@ < u64::MAX ==> generation@ < following@,
{
}

/// Abstract content of local launch options.
pub ghost struct OptionsView {
    pub program: Seq<char>,
    pub args: Seq<Seq<char>>,
    pub envs: Seq<(Seq<char>, Seq<char>)>,
    pub working_directory: Option<Seq<char>>,
}

/// Whether no two environment overrides share a key.
pub open spec fn distinct_keys(envs: Seq<(Seq<char>, Seq<char>)>) -> bool {
    forall|i: int, j: int| 0 <= i < j < envs.len() ==> #[trigger] envs[i].0 != #[trigger] envs[j].0
}

/// Environment overrides after setting `key` to `value`: an existing entry
/// for the key is replaced in place, otherwise the pair is appended.
pub open spec fn env_with(
    envs: Seq<(Seq<char>, Seq<char>)>,
    key: Seq<char>,
    value: Seq<char>,
) -> Seq<(Seq<char>, Seq<char>)> {
    if exists|i: int| 0 <= i < envs.len() && #[trigger] envs[i].0 == key {
        let i = choose|i: int| 0 <= i < envs.len() && #[trigger] envs[i].0 == key;
        envs.update(i, (key, value))
    } else {
        envs.push((key, value))
    }
}

/// Setting an environment override twice keeps only the second value, in
/// the place the first one took.
pub proof fn lemma_env_with_overwrites(
    envs: Seq<(Seq<char>, Seq<char>)>,
    key: Seq<char>,
    first: Seq<char>,
    second: Seq<char>,
)
    requires
        distinct_keys(envs),
    ensures
        env_with(env_with(envs, key, first), key, second) == env_with(envs, key, second),
        distinct_keys(env_with(envs, key, first)),
{
    let once = env_with(envs, key, first);
    if exists|i: int| 0 <= i < envs.len() && #[trigger] envs[i].0 == key {
        let i = choose|i: int| 0 <= i < envs.len() && #[trigger] envs[i].0 == key;
        assert(once == envs.update(i, (key, first)));
        assert(once[i].0 == key);
        let j = choose|j: int| 0 <= j < once.len() && #[trigger] once[j].0 == key;
        assert(j == i) by {
            if j != i {
                assert(envs[j].0 == key);
                assert(envs[i].0 == envs[j].0);
            }
        }
        assert(once.update(i, (key, second)) =~= envs.update(i, (key, second)));
        assert(distinct_keys(once));
    } else {
        assert(once == envs.push((key, first)));
        let n = envs.len() as int;
        assert(once[n].0 == key);
        let j = choose|j: int| 0 <= j < once.len() && #[trigger] once[j].0 == key;
        assert(j == n) by {
            if j < n {
                assert(envs[j].0 == key);
            }
        }
        assert(once.update(n, (key, second)) =~= envs.push((key, second)));
        assert(distinct_keys(once)) by {
            assert forall|a: int, b: int| 0 <= a < b < once.len() implies #[trigger] once[a].0
                != #[trigger] once[b].0 by {
                if b == n {
                    assert(envs[a].0 != key);
                }
            }
        }
    }
}

/// Options for launching a local PTY session.
#[derive(Debug)]
pub struct LocalOptions {
    program: String,
    args: Vec<String>,
    envs: Vec<(String, String)>,
    working_directory: Option<String>,
}

impl View for LocalOptions {
    type V = OptionsView;

    closed spec fn view(&self) -> OptionsView {
        OptionsView {
            program: self.program@,
            args: self.args@.map_values(|arg: String| arg@),
            envs: self.envs@.map_values(|pair: (String, String)| (pair.0@, pair.1@)),
            working_directory: match self.working_directory {
                Some(directory) => Some(directory@),
                None => None,
            },
        }
    }
}

impl LocalOptions {
    #[verifier::type_invariant]
    spec fn keys_distinct(self) -> bool {
        distinct_keys(self@.envs)
    }

    /// Executable passed to the local PTY builder.
    pub fn program(&self) -> (program: &str)
        ensures
            program@ == self@.program,
    {
        self.program.as_str()
    }

    /// Command arguments in launch order.
    pub fn args(&self) -> (args: &[String])
        ensures
            args@.map_values(|arg: String| arg@) == self@.args,
    {
        self.args.as_slice()
    }

    /// Environment overrides as borrowed key/value pairs, in insertion order.
    pub fn envs(&self) -> (envs: Vec<(&str, &str)>)
        ensures
            envs@.map_values(|pair: (&str, &str)| (pair.0@, pair.1@)) == self@.envs,
            distinct_keys(self@.envs),
    {
        proof {
            use_type_invariant(self);
        }
        let mut envs: Vec<(&str, &str)> = Vec::new();
        let mut i: usize = 0;
        while i < self.envs.len()
            invariant
                i <= self.envs@.len(),
                envs@.len() == i,
                forall|j: int|
                    0 <= j < i ==> (#[trigger] envs@[j]).0@ == self.envs@[j].0@ && envs@[j].1@
                        == self.envs@[j].1@,
            decreases self.envs@.len() - i,
        {
            let pair = &self.envs[i];
            envs.push((pair.0.as_str(), pair.1.as_str()));
            i = i + 1;
        }
        proof {
            assert(envs@.map_values(|pair: (&str, &str)| (pair.0@, pair.1@)) =~= self@.envs);
        }
        envs
    }

    /// Working directory, when configured, as the path text it was set to.
    pub fn working_directory(&self) -> (directory: Option<&str>)
        ensures
            match directory {
                Some(directory) => self@.working_directory == Some(directory@),
                None => self@.working_directory is None,
            },
    {
        match &self.working_directory {
            Some(directory) => Some(directory.as_str()),
            None => None,
        }
    }

    /// Create options for the provided executable, with no arguments,
    /// environment overrides or working directory.
    pub fn new(program: &str) -> (options: Self)
        ensures
            options@ == (OptionsView {
                program: program@,
                args: Seq::empty(),
                envs: Seq::empty(),
                working_directory: None,
            }),
    {
        let options = LocalOptions {
            program: program.to_string(),
            args: Vec::new(),
            envs: Vec::new(),
            working_directory: None,
        };
        proof {
            assert(options@.args =~= Seq::empty());
            assert(options@.envs =~= Seq::empty());
        }
        options
    }

    /// Append one command argument.
    pub fn with_arg(self, argument: &str) -> (options: Self)
        ensures
            options@ == (OptionsView { args: self@.args.push(argument@), ..self@ }),
    {
        proof {
            use_type_invariant(&self);
        }
        let ghost before = self@;
        let LocalOptions { program, args, envs, working_directory } = self;
        let mut args = args;
        args.push(argument.to_string());
        let options = LocalOptions { program, args, envs, working_directory };
        proof {
            assert(options@.args =~= before.args.push(argument@));
            assert(options@.envs =~= before.envs);
        }
        options
    }

    /// Add or replace one environment override.
    pub fn with_env(self, key: &str, value: &str) -> (options: Self)
        ensures
            options@ == (OptionsView { envs: env_with(self@.envs, key@, value@), ..self@ }),
    {
        proof {
            use_type_invariant(&self);
        }
        let key_text = key.to_string();
        let value_text = value.to_string();
        let ghost old_envs = self@.envs;
        let ghost before = self@;
        let LocalOptions { program, args, envs, working_directory } = self;
        let mut envs = envs;
        let mut i: usize = 0;
        while i < envs.len()
            invariant
                i <= envs@.len(),
                envs@.map_values(|pair: (String, String)| (pair.0@, pair.1@)) == old_envs,
                forall|j: int| 0 <= j < i ==> old_envs[j].0 != key@,
                distinct_keys(old_envs),
                key_text@ == key@,
                value_text@ == value@,
                program@ == before.program,
                args@.map_values(|arg: String| arg@) == before.args,
                (match working_directory {
                    Some(directory) => Some(directory@),
                    None => None,
                }) == before.working_directory,
                old_envs == before.envs,
                self@ == before,
            decreases envs@.len() - i,
        {
            if envs[i].0 == key_text {
                let existing = envs[i].0.clone();
                envs.set(i, (existing, value_text));
                proof {
                    assert(old_envs[i as int].0 == key@);
                    assert(envs@.map_values(|pair: (String, String)| (pair.0@, pair.1@))
                        =~= old_envs.update(i as int, (key@, value@)));
                    assert(distinct_keys(old_envs.update(i as int, (key@, value@))));
                }
                let options = LocalOptions { program, args, envs, working_directory };
                proof {
                    let k = choose|k: int| 0 <= k < old_envs.len() && #[trigger] old_envs[k].0
                        == key@;
                    assert(k == i) by {
                        if k > i {
                            assert(old_envs[i as int].0 == old_envs[k].0);
                        }
                    }
                    assert(options@.envs =~= env_with(old_envs, key@, value@));
                }
                return options;
            }
            proof {
                assert(old_envs[i as int].0 == envs@[i as int].0@);
            }
            i = i + 1;
        }
        envs.push((key_text, value_text));
        proof {
            assert(envs@.map_values(|pair: (String, String)| (pair.0@, pair.1@)) =~= old_envs.push(
                (key@, value@),
            ));
            assert(!(exists|k: int| 0 <= k < old_envs.len() && #[trigger] old_envs[k].0 == key@));
        }
        LocalOptions { program, args, envs, working_directory }
    }

    /// Set the child process working directory.
    pub fn with_working_directory(self, directory: &str) -> (options: Self)
        ensures
            options@ == (OptionsView { working_directory: Some(directory@), ..self@ }),
    {
        proof {
            use_type_invariant(&self);
        }
        let ghost before = self@;
        let LocalOptions { program, args, envs, working_directory: _ } = self;
        let options = LocalOptions {
            program,
            args,
            envs,
            working_directory: Some(directory.to_string()),
        };
        proof {
            assert(options@.envs =~= before.envs);
        }
        options
    }
}

impl Default for LocalOptions {
    fn default() -> (options: Self)
        ensures
            options@ == (OptionsView {
                program: "/bin/sh"@,
                args: Seq::empty(),
                envs: Seq::empty(),
                working_directory: None,
            }),
    {
        LocalOptions::new("/bin/sh")
    }
}

/// Built-in local PTY backend.
#[derive(Debug)]
pub struct LocalBackend {
    options: LocalOptions,
}

impl View for LocalBackend {
    type V = OptionsView;

    closed spec fn view(&self) -> OptionsView {
        self.options@
    }
}

impl LocalBackend {
    /// Borrow launch options.
    pub fn options(&self) -> (options: &LocalOptions)
        ensures
            options@ == self@,
    {
        &self.options
    }

    /// Create a local backend without starting a process.
    pub fn new(options: LocalOptions) -> (backend: Self)
        ensures
            backend@ == options@,
    {
        LocalBackend { options }
    }
}

} // verus!
