//! How mprime is launched for one core: the CPU it is pinned to, its
//! command line and library path, and the threads whose affinity is set
//! afterwards. Spawning and signalling the process is left to the caller.
use crate::cpu_topology::CpuTopology;
use crate::text;
use vstd::prelude::*;

verus! {

/// The CPU that mprime for a physical core is pinned to: the first logical
/// CPU of that core.
pub open spec fn launch_cpu_spec(core_map: Map<u32, Vec<u32>>, core_id: u32) -> Option<u32> {
    if core_map.contains_key(core_id) && core_map[core_id]@.len() > 0 {
        Some(core_map[core_id]@[0])
    } else {
        None
    }
}

pub open spec fn missing_core_message(core_id: u32) -> Seq<char> {
    "physical core "@ + text::decimal(core_id as nat) + " not found in topology map"@
}

/// The logical CPU to pin mprime to for a physical core, or why there is
/// none.
pub fn launch_cpu(topology: &CpuTopology, core_id: u32) -> (r: Result<u32, String>)
    ensures
        match r {
            Ok(cpu) => launch_cpu_spec(topology.core_map@, core_id) == Some(cpu),
            Err(e) => launch_cpu_spec(topology.core_map@, core_id) is None && e@ == missing_core_message(core_id),
        },
{
    broadcast use vstd::std_specs::btree::group_btree_axioms;
    match topology.core_map.get(&core_id) {
        Some(cpus) => if cpus.len() > 0 {
            return Ok(cpus[0]);
        },
        None => {},
    }
    let mut m = text::lit("physical core ");
    text::push_u64(&mut m, core_id as u64);
    text::push_str(&mut m, " not found in topology map");
    Err(text::string_from_chars(&m))
}

/// `LD_LIBRARY_PATH` for mprime: the bundled library directory first, then
/// the caller's value when it is set and not empty.
pub open spec fn ld_library_path_spec(lib_dir: Seq<char>, existing: Option<Seq<char>>) -> Seq<char> {
    match existing {
        Some(e) => if e.len() > 0 {
            lib_dir + ":"@ + e
        } else {
            lib_dir
        },
        None => lib_dir,
    }
}

pub fn ld_library_path(lib_dir: &str, existing: Option<&str>) -> (s: String)
    ensures
        s@ == ld_library_path_spec(
            lib_dir@,
            match existing {
                Some(e) => Some(e@),
                None => None,
            },
        ),
{
    let mut v = text::lit(lib_dir);
    if let Some(e) = existing {
        if !e.is_empty() {
            text::push_str(&mut v, ":");
            text::push_str(&mut v, e);
        }
    }
    text::string_from_chars(&v)
}

/// The `-w<dir>` argument that makes mprime work in `dir`.
pub fn working_dir_arg(dir: &str) -> (s: String)
    ensures
        s@ == "-w"@ + dir@,
{
    let mut v = text::lit("-w");
    text::push_str(&mut v, dir);
    text::string_from_chars(&v)
}

/// The thread ids named by the entries of `/proc/<pid>/task`, in order, or
/// the first entry that is not one.
pub open spec fn thread_ids_spec(names: Seq<Seq<char>>) -> Result<Seq<i32>, Seq<char>>
    decreases names.len(),
{
    if names.len() == 0 {
        Ok(seq![])
    } else {
        match thread_ids_spec(names.drop_last()) {
            Err(e) => Err(e),
            Ok(v) => match text::parse_i32_spec(names.last()) {
                Some(t) => Ok(v.push(t)),
                None => Err("invalid thread id '"@ + names.last() + "'"@),
            },
        }
    }
}

proof fn lemma_thread_ids_err(names: Seq<Seq<char>>, i: int)
    requires
        0 <= i <= names.len(),
        thread_ids_spec(names.take(i)) is Err,
    ensures
        thread_ids_spec(names) == thread_ids_spec(names.take(i)),
    decreases names.len() - i,
{
    if i < names.len() {
        assert(names.take(i + 1).drop_last() =~= names.take(i));
        lemma_thread_ids_err(names, i + 1);
    } else {
        assert(names.take(i) =~= names);
    }
}

pub open spec fn names_view(v: Seq<String>) -> Seq<Seq<char>> {
    v.map_values(|s: String| s@)
}

pub fn parse_thread_ids(names: &Vec<String>) -> (r: Result<Vec<i32>, String>)
    ensures
        match r {
            Ok(v) => thread_ids_spec(names_view(names@)) == Ok::<Seq<i32>, Seq<char>>(v@),
            Err(e) => thread_ids_spec(names_view(names@)) == Err::<Seq<i32>, Seq<char>>(e@),
        },
{
    let ghost ns = names_view(names@);
    let mut ids: Vec<i32> = Vec::new();
    let mut i: usize = 0;
    assert(ns.take(0) =~= Seq::<Seq<char>>::empty());
    while i < names.len()
        invariant
            i <= names.len(),
            ns == names_view(names@),
            thread_ids_spec(ns.take(i as int)) == Ok::<Seq<i32>, Seq<char>>(ids@),
        decreases names.len() - i,
    {
        assert(ns.take(i + 1).drop_last() =~= ns.take(i as int));
        assert(ns.take(i + 1).last() == names@[i as int]@);
        let c = text::chars_of(names[i].as_str());
        match text::parse_i32(&c) {
            Some(t) => ids.push(t),
            None => {
                let mut m = text::lit("invalid thread id '");
                text::push_chars(&mut m, &c);
                text::push_str(&mut m, "'");
                proof {
                    lemma_thread_ids_err(ns, i + 1);
                }
                return Err(text::string_from_chars(&m));
            },
        }
        i += 1;
    }
    assert(ns.take(names.len() as int) =~= ns);
    Ok(ids)
}

} // verus!
