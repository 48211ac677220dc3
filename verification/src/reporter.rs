use vstd::prelude::*;
use crate::error::{path_view, Error, Fault};
use crate::text::copy_path;

verus! {

/// Receives the progress of a test run: groups and tests are entered and
/// exited, and each test succeeds or fails.
pub trait Reporter {
    fn enter(&mut self, name: &str);

    fn exit(&mut self);

    fn success(&mut self);

    fn failure(&mut self, name: &str, err: &Error);
}

/// A test that failed: the groups it ran in, its name and its error.
pub struct FailedTest {
    pub path: Vec<String>,
    pub name: String,
    pub error: Error,
}

pub open spec fn failed_view(f: FailedTest) -> (Seq<Seq<char>>, Seq<char>, Fault) {
    (path_view(f.path@), f.name@, f.error@)
}

/// Collects the failures of a test run, each with the groups it ran in.
pub struct TestResults {
    path: Vec<String>,
    pub failures: Vec<FailedTest>,
}

impl TestResults {
    /// The groups entered and not yet exited, outermost first.
    pub closed spec fn current_path(&self) -> Seq<Seq<char>> {
        path_view(self.path@)
    }

    pub closed spec fn failures_view(&self) -> Seq<(Seq<Seq<char>>, Seq<char>, Fault)> {
        self.failures@.map_values(|f: FailedTest| failed_view(f))
    }

    pub fn new() -> (r: TestResults)
        ensures
            r.current_path() == Seq::<Seq<char>>::empty(),
            r.failures_view().len() == 0,
    {
        let r = TestResults { path: Vec::new(), failures: Vec::new() };
        proof {
            assert(r.current_path() =~= Seq::<Seq<char>>::empty());
        }
        r
    }
}

impl Reporter for TestResults {
    fn enter(&mut self, name: &str)
        ensures
            final(self).current_path() == old(self).current_path().push(name@),
            final(self).failures_view() == old(self).failures_view(),
    {
        let ghost before = self.path@;
        self.path.push(name.to_string());
        proof {
            assert(path_view(self.path@) =~= path_view(before).push(name@));
        }
    }

    fn exit(&mut self)
        ensures
            final(self).current_path() == if old(self).current_path().len() > 0 {
                old(self).current_path().drop_last()
            } else {
                old(self).current_path()
            },
            final(self).failures_view() == old(self).failures_view(),
    {
        let ghost before = self.path@;
        self.path.pop();
        proof {
            assert(path_view(self.path@) =~= if before.len() > 0 {
                path_view(before).drop_last()
            } else {
                path_view(before)
            });
        }
    }

    fn success(&mut self)
        ensures
            final(self).current_path() == old(self).current_path(),
            final(self).failures_view() == old(self).failures_view(),
    {
    }

    fn failure(&mut self, name: &str, err: &Error)
        ensures
            final(self).current_path() == old(self).current_path(),
            final(self).failures_view() == old(self).failures_view().push(
                (old(self).current_path(), name@, err@),
            ),
    {
        let path = copy_path(&self.path);
        let ghost before = self.failures@;
        self.failures.push(FailedTest { path, name: name.to_string(), error: err.duplicate() });
        proof {
            assert(self.failures_view() =~= before.map_values(|f: FailedTest| failed_view(f)).push(
                (path_view(self.path@), name@, err@),
            ));
        }
    }
}

/// Entering a group and exiting it again leaves the current groups as they
/// were, and records no failure.
pub proof fn lemma_enter_exit(before: Seq<Seq<char>>, name: Seq<char>)
    ensures
        before.push(name).len() > 0,
        before.push(name).drop_last() == before,
{
    assert(before.push(name).drop_last() =~= before);
}

/// Reports to the console, indenting by the depth of the current group.
#[derive(Clone, Copy, Debug)]
pub struct ConsoleReporter {
    pub level: usize,
}

/// `"│ ".repeat(n)`: the indentation of a line at depth `n`.
pub open spec fn indentation(n: nat) -> Seq<char>
    decreases n,
{
    if n == 0 {
        seq![]
    } else {
        indentation((n - 1) as nat) + seq!['│', ' ']
    }
}

/// The line that announces a test: a new line, the indentation of its
/// depth, a branch and the test's name.
fn announce_line(level: usize, name: &str) -> (r: String)
    ensures
        r@ == seq!['\n'] + indentation(level as nat) + seq!['├', ' '] + name@ + seq![' ', '.', '.', '.'],
{
    let mut spaces = String::new();
    let mut i: usize = 0;
    while i < level
        invariant
            i <= level,
            spaces@ == indentation(i as nat),
        decreases level - i,
    {
        spaces = crate::strings::concat3(spaces.as_str(), "│ ", "");
        proof {
            reveal_strlit("│ ");
            reveal_strlit("");
            assert(spaces@ =~= indentation((i + 1) as nat));
        }
        i += 1;
    }
    let head = crate::strings::concat3("\n", spaces.as_str(), "├ ");
    let line = crate::strings::concat3(head.as_str(), name, " ...");
    proof {
        reveal_strlit("\n");
        reveal_strlit("├ ");
        reveal_strlit(" ...");
        assert(line@ =~= seq!['\n'] + indentation(level as nat) + seq!['├', ' '] + name@ + seq![' ', '.', '.', '.']);
    }
    line
}

impl Default for ConsoleReporter {
    /// The same reporter as `new`: at the top level.
    fn default() -> (r: ConsoleReporter)
        ensures
            r.level == 0,
    {
        ConsoleReporter::new()
    }
}

impl ConsoleReporter {
    pub fn new() -> (r: ConsoleReporter)
        ensures
            r.level == 0,
    {
        ConsoleReporter { level: 0 }
    }

    /// Enters a test or a group: the line to print, one level deeper from
    /// then on.
    pub fn enter(&mut self, name: &str) -> (line: String)
        requires
            old(self).level < usize::MAX,
        ensures
            final(self).level == old(self).level + 1,
            line@ == seq!['\n'] + indentation(old(self).level as nat) + seq!['├', ' '] + name@ + seq![
                ' ',
                '.',
                '.',
                '.',
            ],
    {
        let line = announce_line(self.level, name);
        self.level = self.level + 1;
        line
    }

    /// Exits a test or a group: one level shallower.
    pub fn exit(&mut self)
        requires
            old(self).level > 0,
        ensures
            final(self).level == old(self).level - 1,
    {
        self.level = self.level - 1;
    }
}

/// How many tests of each kind are generated, and how large they are.
#[derive(Clone, Copy, Debug, PartialEq, Eq)]
pub struct TestGenerationConfiguration {
    pub test_cases: u32,
    pub sample_size: u32,
    pub max_limit: u32,
    pub complexity: u8,
}

impl Default for TestGenerationConfiguration {
    fn default() -> (r: Self)
        ensures
            r.test_cases == 10,
            r.sample_size == 10,
            r.max_limit == 10,
            r.complexity == 0,
    {
        TestGenerationConfiguration { test_cases: 10, sample_size: 10, max_limit: 10, complexity: 0 }
    }
}

/// Arguments to send with the requests of the test suite.
pub struct RequestArguments {
    pub query: Option<crate::dict::Dict<crate::json::JsonValue>>,
}

/// Options of a test run: whether responses are validated, and the
/// arguments to send with requests.
pub struct TestOptions {
    pub validate_responses: bool,
    pub request_arguments: RequestArguments,
}

impl Default for TestOptions {
    fn default() -> (r: Self)
        ensures
            r.validate_responses,
            r.request_arguments.query is None,
    {
        TestOptions { validate_responses: true, request_arguments: RequestArguments { query: None } }
    }
}

} // verus!
