//! What is cleaned up when the program stops: the child processes to
//! terminate and the temporary directories to remove, unless they are
//! kept for debugging after an error. The clean-up is planned once; the
//! caller sends the signals and removes the directories.
use vstd::prelude::*;

verus! {

/// The resources registered for clean-up.
pub struct Cleanup {
    temp_dirs: Vec<String>,
    child_pids: Vec<u32>,
    preserve_on_error: bool,
    executed: bool,
}

/// The registered resources, abstractly.
pub struct CleanupView {
    pub temp_dirs: Seq<Seq<char>>,
    pub child_pids: Seq<u32>,
    pub preserve_on_error: bool,
    pub executed: bool,
}

/// What one clean-up does.
pub struct CleanupPlan {
    /// Processes to stop (SIGTERM, then SIGKILL if still alive), in order.
    pub terminate: Vec<u32>,
    /// Directories to remove.
    pub remove_dirs: Vec<String>,
    /// Directories kept for debugging.
    pub preserved_dirs: Vec<String>,
}

pub struct PlanView {
    pub terminate: Seq<u32>,
    pub remove_dirs: Seq<Seq<char>>,
    pub preserved_dirs: Seq<Seq<char>>,
}

pub open spec fn strings_view(v: Seq<String>) -> Seq<Seq<char>> {
    v.map_values(|s: String| s@)
}

impl CleanupPlan {
    pub open spec fn view(&self) -> PlanView {
        PlanView {
            terminate: self.terminate@,
            remove_dirs: strings_view(self.remove_dirs@),
            preserved_dirs: strings_view(self.preserved_dirs@),
        }
    }
}

pub open spec fn empty_plan() -> PlanView {
    PlanView { terminate: seq![], remove_dirs: seq![], preserved_dirs: seq![] }
}

/// One clean-up from state `c`: the state after it and its plan. Only the
/// first does anything: it terminates every registered process and
/// removes every registered directory, or keeps them all when
/// `preserve_on_error` is set. Later ones do nothing.
pub open spec fn execute_spec(c: CleanupView) -> (CleanupView, PlanView) {
    if c.executed {
        (c, empty_plan())
    } else if c.preserve_on_error {
        (
            CleanupView { child_pids: seq![], executed: true, ..c },
            PlanView { terminate: c.child_pids, remove_dirs: seq![], preserved_dirs: c.temp_dirs },
        )
    } else {
        (
            CleanupView { child_pids: seq![], temp_dirs: seq![], executed: true, ..c },
            PlanView { terminate: c.child_pids, remove_dirs: c.temp_dirs, preserved_dirs: seq![] },
        )
    }
}

fn copy_strings(v: &Vec<String>) -> (r: Vec<String>)
    ensures
        strings_view(r@) == strings_view(v@),
{
    let mut r: Vec<String> = Vec::new();
    let mut i: usize = 0;
    while i < v.len()
        invariant
            i <= v.len(),
            r@.len() == i,
            strings_view(r@) == strings_view(v@.take(i as int)),
        decreases v.len() - i,
    {
        let ghost prev = r@;
        let c = v[i].clone();
        r.push(c);
        i += 1;
        assert forall|k: int| 0 <= k < r@.len() implies (#[trigger] r@[k])@ == v@.take(i as int)[k]@ by {
            if k < i - 1 {
                assert(r@[k] == prev[k]);
                assert(strings_view(prev)[k] == strings_view(v@.take(i - 1))[k]);
            }
        }
        assert(strings_view(r@) =~= strings_view(v@.take(i as int)));
    }
    assert(v@.take(v.len() as int) =~= v@);
    r
}

impl Cleanup {
    pub closed spec fn view(&self) -> CleanupView {
        CleanupView {
            temp_dirs: strings_view(self.temp_dirs@),
            child_pids: self.child_pids@,
            preserve_on_error: self.preserve_on_error,
            executed: self.executed,
        }
    }

    pub fn new() -> (c: Cleanup)
        ensures
            c@ == (CleanupView { temp_dirs: seq![], child_pids: seq![], preserve_on_error: false, executed: false }),
    {
        let c = Cleanup { temp_dirs: Vec::new(), child_pids: Vec::new(), preserve_on_error: false, executed: false };
        assert(c@.temp_dirs =~= Seq::<Seq<char>>::empty());
        c
    }

    /// Registers a temporary directory to remove.
    pub fn register_temp_dir(&mut self, path: String)
        ensures
            final(self)@ == (CleanupView { temp_dirs: old(self)@.temp_dirs.push(path@), ..old(self)@ }),
    {
        self.temp_dirs.push(path);
        assert(self@.temp_dirs =~= old(self)@.temp_dirs.push(path@));
    }

    /// Registers a child process to terminate.
    pub fn register_child_process(&mut self, pid: u32)
        ensures
            final(self)@ == (CleanupView { child_pids: old(self)@.child_pids.push(pid), ..old(self)@ }),
    {
        self.child_pids.push(pid);
    }

    /// Keep the temporary directories (set when a test found errors).
    pub fn set_preserve_on_error(&mut self, preserve: bool)
        ensures
            final(self)@ == (CleanupView { preserve_on_error: preserve, ..old(self)@ }),
    {
        self.preserve_on_error = preserve;
    }

    /// Plans the clean-up, once: see `execute_spec`.
    pub fn execute(&mut self) -> (plan: CleanupPlan)
        ensures
            (final(self)@, plan@) == execute_spec(old(self)@),
    {
        if self.executed {
            let plan = CleanupPlan { terminate: Vec::new(), remove_dirs: Vec::new(), preserved_dirs: Vec::new() };
            assert(plan@.remove_dirs =~= Seq::<Seq<char>>::empty());
            assert(plan@.preserved_dirs =~= Seq::<Seq<char>>::empty());
            return plan;
        }
        self.executed = true;
        let mut terminate: Vec<u32> = Vec::new();
        std::mem::swap(&mut terminate, &mut self.child_pids);
        if self.preserve_on_error {
            let preserved_dirs = copy_strings(&self.temp_dirs);
            let plan = CleanupPlan { terminate, remove_dirs: Vec::new(), preserved_dirs };
            assert(plan@.remove_dirs =~= Seq::<Seq<char>>::empty());
            assert(self@.child_pids =~= Seq::<u32>::empty());
            plan
        } else {
            let mut remove_dirs: Vec<String> = Vec::new();
            std::mem::swap(&mut remove_dirs, &mut self.temp_dirs);
            let plan = CleanupPlan { terminate, remove_dirs, preserved_dirs: Vec::new() };
            assert(plan@.preserved_dirs =~= Seq::<Seq<char>>::empty());
            assert(self@.child_pids =~= Seq::<u32>::empty());
            assert(self@.temp_dirs =~= Seq::<Seq<char>>::empty());
            plan
        }
    }
}

/// Clean-up is idempotent: a second clean-up does nothing and changes
/// nothing.
pub proof fn lemma_cleanup_idempotent(c: CleanupView)
    ensures
        execute_spec(execute_spec(c).0).0 == execute_spec(c).0,
        execute_spec(execute_spec(c).0).1 == empty_plan(),
{
}

/// The first clean-up terminates exactly the registered processes, and
/// every registered directory is either removed or kept, never both.
pub proof fn lemma_cleanup_covers(c: CleanupView)
    requires
        !c.executed,
    ensures
        execute_spec(c).1.terminate == c.child_pids,
        execute_spec(c).1.remove_dirs + execute_spec(c).1.preserved_dirs == c.temp_dirs,
        execute_spec(c).1.remove_dirs.len() == 0 || execute_spec(c).1.preserved_dirs.len() == 0,
{
    assert(c.temp_dirs + Seq::<Seq<char>>::empty() =~= c.temp_dirs);
    assert(Seq::<Seq<char>>::empty() + c.temp_dirs =~= c.temp_dirs);
}

} // verus!
