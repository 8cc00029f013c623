//! Model of the isolated execution environment ("dominion") and of the
//! options a child process is spawned with. The OS-level backend itself is an
//! external collaborator; this module carries the exact option records the
//! pipeline hands to it, with their construction and update rules.

use vstd::prelude::*;

verus! {

/// A span of wall-clock time, normalized so that `nanos < 1_000_000_000`.
#[derive(Clone, Copy, PartialEq, Eq, Structural, Debug)]
pub struct TimeSpan {
    pub secs: u64,
    pub nanos: u32,
}

pub const NANOS_PER_SEC: u32 = 1_000_000_000;

impl TimeSpan {
    /// Normalizing constructor: carries whole seconds out of the nanosecond
    /// part, as a span built from raw second/nanosecond counts.
    pub fn new(seconds: u32, nanoseconds: u32) -> (r: TimeSpan)
        ensures
            r.secs == seconds + nanoseconds / NANOS_PER_SEC,
            r.nanos == nanoseconds % NANOS_PER_SEC,
    {
        let carry: u32 = nanoseconds / NANOS_PER_SEC;
        TimeSpan { secs: seconds as u64 + carry as u64, nanos: nanoseconds % NANOS_PER_SEC }
    }

    /// A span of whole milliseconds.
    pub fn from_millis(ms: u32) -> (r: TimeSpan)
        ensures
            r.secs == ms / 1000,
            r.nanos == (ms % 1000) * 1_000_000,
    {
        TimeSpan { secs: (ms / 1000) as u64, nanos: (ms % 1000) * 1_000_000 }
    }

    pub open spec fn wf(self) -> bool {
        self.nanos < NANOS_PER_SEC
    }
}

/// What an isolated environment is created with.
#[derive(Clone, Debug)]
pub struct DominionOptions {
    pub allow_network: bool,
    pub allow_file_io: bool,
    pub max_alive_process_count: usize,
    pub memory_limit: u64,
    pub time_limit: TimeSpan,
    pub isolation_root: String,
    pub exposed_paths: Vec<String>,
}

impl DominionOptions {
    /// The neutral record every creation starts from: everything forbidden,
    /// every limit zero, no root and no exposed paths.
    pub fn new() -> (r: DominionOptions)
        ensures
            !r.allow_network,
            !r.allow_file_io,
            r.max_alive_process_count == 0,
            r.memory_limit == 0,
            r.time_limit == (TimeSpan { secs: 0, nanos: 0 }),
            r.isolation_root@ == Seq::<char>::empty(),
            r.exposed_paths@ == Seq::<String>::empty(),
    {
        DominionOptions {
            allow_network: false,
            allow_file_io: false,
            max_alive_process_count: 0,
            memory_limit: 0,
            time_limit: TimeSpan { secs: 0, nanos: 0 },
            isolation_root: String::new(),
            exposed_paths: Vec::new(),
        }
    }

    /// Replaces the wall-clock limit; every other field is kept.
    pub fn set_time_limit(&mut self, seconds: u32, nanoseconds: u32)
        ensures
            final(self).time_limit.secs == seconds + nanoseconds / NANOS_PER_SEC,
            final(self).time_limit.nanos == nanoseconds % NANOS_PER_SEC,
            *final(self) == (DominionOptions { time_limit: final(self).time_limit, ..*old(self) }),
    {
        self.time_limit = TimeSpan::new(seconds, nanoseconds);
    }

    /// Replaces the alive-process ceiling; every other field is kept.
    pub fn set_process_limit(&mut self, limit: u32)
        ensures
            *final(self) == (DominionOptions { max_alive_process_count: limit as usize, ..*old(self) }),
    {
        self.max_alive_process_count = limit as usize;
    }

    /// Replaces the isolation root; every other field is kept.
    pub fn set_isolation_root(&mut self, path: String)
        ensures
            *final(self) == (DominionOptions { isolation_root: path, ..*old(self) }),
    {
        self.isolation_root = path;
    }
}

/// Handle to one isolated environment. The underlying sandbox is shared:
/// duplicating a handle yields two that name the same environment, and
/// teardown happens only when the last one is released.
#[derive(Clone, Copy, PartialEq, Eq, Structural, Debug)]
pub struct Dominion {
    pub id: u64,
}

impl Dominion {
    /// Shared-ownership duplication: both results name the same environment.
    pub fn duplicate(&self) -> (r: (Dominion, Dominion))
        ensures
            r.0 == *self,
            r.1 == *self,
    {
        (Dominion { id: self.id }, Dominion { id: self.id })
    }
}

/// Where one standard input stream of a child comes from.
#[derive(Clone, Copy, PartialEq, Eq, Structural, Debug)]
pub enum InputSpecification {
    Null,
    Empty,
    RawHandle(u64),
}

/// Where one standard output stream of a child goes.
#[derive(Clone, Copy, PartialEq, Eq, Structural, Debug)]
pub enum OutputSpecification {
    Null,
    Ignore,
    RawHandle(u64),
}

/// The three stdio streams of a child, each specified independently.
#[derive(Clone, Copy, PartialEq, Eq, Structural, Debug)]
pub struct StdioSpecification {
    pub stdin: InputSpecification,
    pub stdout: OutputSpecification,
    pub stderr: OutputSpecification,
}

/// Selects one of the three stdio streams.
#[derive(Clone, Copy, PartialEq, Eq, Structural, Debug)]
pub enum StdioMember {
    Stdin,
    Stdout,
    Stderr,
}

/// What a child process is spawned with inside a dominion.
#[derive(Clone, Debug)]
pub struct ChildProcessOptions {
    pub path: String,
    pub arguments: Vec<String>,
    pub environment: Vec<(String, String)>,
    pub dominion: Dominion,
    pub stdio: StdioSpecification,
    pub pwd: String,
}

/// An environment mapping is well formed when its keys are unique.
pub open spec fn env_wf(env: Seq<(String, String)>) -> bool {
    forall|i: int, j: int|
        0 <= i < j < env.len() ==> env[i].0@ != env[j].0@
}

/// The value bound to `key`, if any.
pub open spec fn env_lookup(env: Seq<(String, String)>, key: Seq<char>) -> Option<Seq<char>>
    decreases env.len(),
{
    if env.len() == 0 {
        None
    } else if env[0].0@ == key {
        Some(env[0].1@)
    } else {
        env_lookup(env.drop_first(), key)
    }
}

impl ChildProcessOptions {
    /// The neutral record a spawn request starts from: no executable, no
    /// arguments, an empty environment, all three stdio streams null, and an
    /// empty working directory.
    pub fn new(dominion: Dominion) -> (r: ChildProcessOptions)
        ensures
            r.path@ == Seq::<char>::empty(),
            r.arguments@ == Seq::<String>::empty(),
            r.environment@ == Seq::<(String, String)>::empty(),
            r.dominion == dominion,
            r.stdio == (StdioSpecification {
                stdin: InputSpecification::Null,
                stdout: OutputSpecification::Null,
                stderr: OutputSpecification::Null,
            }),
            r.pwd@ == Seq::<char>::empty(),
    {
        ChildProcessOptions {
            path: String::new(),
            arguments: Vec::new(),
            environment: Vec::new(),
            dominion,
            stdio: StdioSpecification {
                stdin: InputSpecification::Null,
                stdout: OutputSpecification::Null,
                stderr: OutputSpecification::Null,
            },
            pwd: String::new(),
        }
    }

    /// Replaces the executable path; every other field is kept.
    pub fn set_image_path(&mut self, path: String)
        ensures
            *final(self) == (ChildProcessOptions { path, ..*old(self) }),
    {
        self.path = path;
    }

    /// Appends one argument; every other field is kept.
    pub fn add_arg(&mut self, arg: String)
        ensures
            final(self).arguments@ == old(self).arguments@.push(arg),
            *final(self) == (ChildProcessOptions { arguments: final(self).arguments, ..*old(self) }),
    {
        self.arguments.push(arg);
    }

    /// Binds `value` to `name` in the environment, replacing any earlier
    /// binding of the same name; keys stay unique, and every other field is
    /// kept.
    pub fn add_env(&mut self, name: String, value: String)
        requires
            env_wf(old(self).environment@),
        ensures
            env_wf(final(self).environment@),
            env_lookup(final(self).environment@, name@) == Some(value@),
            forall|k: Seq<char>| k != name@ ==>
                env_lookup(final(self).environment@, k) == env_lookup(old(self).environment@, k),
            *final(self) == (ChildProcessOptions { environment: final(self).environment, ..*old(self) }),
    {
        assoc_put(&mut self.environment, name, value);
    }
}

/// Binds `value` to `key` in a unique-key association list, replacing any
/// earlier binding of the same key.
pub fn assoc_put(m: &mut Vec<(String, String)>, key: String, value: String)
    requires
        env_wf(old(m)@),
    ensures
        env_wf(final(m)@),
        env_lookup(final(m)@, key@) == Some(value@),
        forall|k: Seq<char>| k != key@ ==> env_lookup(final(m)@, k) == env_lookup(old(m)@, k),
{
    let n = m.len();
    let mut i: usize = 0;
    while i < n
        invariant
            n == m@.len(),
            i <= n,
            env_wf(m@),
            m@ == old(m)@,
            forall|j: int| 0 <= j < i ==> m@[j].0@ != key@,
        decreases n - i,
    {
        if string_eq(&m[i].0, &key) {
            m.set(i, (key, value));
            proof {
                lemma_env_update(old(m)@, i as int, key@, value@, m@);
            }
            return;
        }
        i += 1;
    }
    m.push((key, value));
    proof {
        lemma_env_append(old(m)@, key@, value@, m@);
    }
}

/// String equality as executable code, meaning equality of the views.
pub fn string_eq(a: &String, b: &String) -> (r: bool)
    ensures
        r == (a@ == b@),
{
    a.eq(b)
}

/// Equality of a string against a borrowed one, meaning equality of views.
pub fn str_eq_literal(a: &String, b: &str) -> (r: bool)
    ensures
        r == (a@ == b@),
{
    let owned = b.to_owned();
    a.eq(&owned)
}

/// Replacing the entry that holds `key` rebinds `key` and nothing else.
proof fn lemma_env_update(
    env: Seq<(String, String)>,
    i: int,
    name: Seq<char>,
    value: Seq<char>,
    updated: Seq<(String, String)>,
)
    requires
        env_wf(env),
        0 <= i < env.len(),
        env[i].0@ == name,
        forall|j: int| 0 <= j < i ==> env[j].0@ != name,
        updated.len() == env.len(),
        updated[i].0@ == name,
        updated[i].1@ == value,
        forall|j: int| 0 <= j < env.len() && j != i ==> updated[j] == env[j],
    ensures
        env_wf(updated),
        env_lookup(updated, name) == Some(value),
        forall|k: Seq<char>| k != name ==> env_lookup(updated, k) == env_lookup(env, k),
    decreases env.len(),
{
    assert(forall|j: int| 0 <= j < env.len() ==> updated[j].0@ == env[j].0@);
    if i == 0 {
        assert forall|k: Seq<char>| k != name implies
            env_lookup(updated, k) == env_lookup(env, k) by {
            assert(updated.drop_first() =~= env.drop_first());
        }
    } else {
        assert forall|j: int| 0 <= j < env.drop_first().len() && j != i - 1 implies
            updated.drop_first()[j] == env.drop_first()[j] by {
            assert(updated[j + 1] == env[j + 1]);
        }
        lemma_env_update(env.drop_first(), i - 1, name, value, updated.drop_first());
        assert forall|k: Seq<char>| k != name implies
            env_lookup(updated, k) == env_lookup(env, k) by {
            if updated[0].0@ == k {
                assert(env[0].0@ == k);
                assert(updated[0] == env[0]);
            } else {
                assert(env_lookup(updated.drop_first(), k) == env_lookup(env.drop_first(), k));
                assert(env_lookup(updated, k) == env_lookup(updated.drop_first(), k));
                assert(env_lookup(env, k) == env_lookup(env.drop_first(), k));
            }
        }
        assert(env_lookup(updated, name) == Some(value)) by {
            assert(updated[0].0@ == env[0].0@ && env[0].0@ != name);
        }
    }
}

/// Appending a binding for an absent key adds that key and changes no other.
proof fn lemma_env_append(
    env: Seq<(String, String)>,
    name: Seq<char>,
    value: Seq<char>,
    appended: Seq<(String, String)>,
)
    requires
        env_wf(env),
        forall|j: int| 0 <= j < env.len() ==> env[j].0@ != name,
        appended.len() == env.len() + 1,
        forall|j: int| 0 <= j < env.len() ==> appended[j] == env[j],
        appended[env.len() as int].0@ == name,
        appended[env.len() as int].1@ == value,
    ensures
        env_wf(appended),
        env_lookup(appended, name) == Some(value),
        forall|k: Seq<char>| k != name ==> env_lookup(appended, k) == env_lookup(env, k),
    decreases env.len(),
{
    assert(forall|j: int| 0 <= j < env.len() ==> appended[j].0@ == env[j].0@);
    if env.len() == 0 {
        assert forall|k: Seq<char>| k != name implies
            env_lookup(appended, k) == env_lookup(env, k) by {
            assert(env_lookup(appended.drop_first(), k) == env_lookup(env, k)) by {
                assert(appended.drop_first() =~= Seq::<(String, String)>::empty());
                assert(env =~= Seq::<(String, String)>::empty());
            }
        }
    } else {
        assert forall|j: int| 0 <= j < env.drop_first().len() implies
            appended.drop_first()[j] == env.drop_first()[j] by {
            assert(appended[j + 1] == env[j + 1]);
        }
        assert(appended.drop_first().len() == env.drop_first().len() + 1);
        assert(appended.drop_first()[env.drop_first().len() as int] ==
            appended[env.len() as int]);
        lemma_env_append(env.drop_first(), name, value, appended.drop_first());
        assert forall|k: Seq<char>| k != name implies
            env_lookup(appended, k) == env_lookup(env, k) by {
            if appended[0].0@ == k {
                assert(appended[0] == env[0]);
            } else {
                assert(env_lookup(appended.drop_first(), k) == env_lookup(env.drop_first(), k));
                assert(env_lookup(appended, k) == env_lookup(appended.drop_first(), k));
                assert(env_lookup(env, k) == env_lookup(env.drop_first(), k));
            }
        }
        assert(appended[0].0@ == env[0].0@ && env[0].0@ != name);
    }
}

/// Routes a raw stream handle to the selected stdio member; the two other
/// members and every other field are kept.
impl ChildProcessOptions {
    pub fn set_stdio_handle(&mut self, member: StdioMember, handle: u64)
        ensures
            *final(self) == (ChildProcessOptions { stdio: final(self).stdio, ..*old(self) }),
            member == StdioMember::Stdin ==> final(self).stdio == (StdioSpecification {
                stdin: InputSpecification::RawHandle(handle),
                ..old(self).stdio
            }),
            member == StdioMember::Stdout ==> final(self).stdio == (StdioSpecification {
                stdout: OutputSpecification::RawHandle(handle),
                ..old(self).stdio
            }),
            member == StdioMember::Stderr ==> final(self).stdio == (StdioSpecification {
                stderr: OutputSpecification::RawHandle(handle),
                ..old(self).stdio
            }),
    {
        match member {
            StdioMember::Stdin => {
                self.stdio.stdin = InputSpecification::RawHandle(handle);
            }
            StdioMember::Stdout => {
                self.stdio.stdout = OutputSpecification::RawHandle(handle);
            }
            StdioMember::Stderr => {
                self.stdio.stderr = OutputSpecification::RawHandle(handle);
            }
        }
    }
}

} // verus!
