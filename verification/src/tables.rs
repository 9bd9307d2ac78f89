//! Maps from strings to the parts of workflows and actions that keep the order of
//! their keys: `indexmap::IndexMap`.

use crate::exec::context::JobResult;
use crate::model::{ActionInput, ActionOutput, InputView, Job, JobView};
use crate::strmap::{keys_of, lemma_distinct};
use crate::table::{collected, law_distinct_pairs_are_kept, lookup, put};
use crate::text::{opt_text, texts, Text};
use indexmap::IndexMap;
use vstd::prelude::*;

verus! {

// ---------------------------------------------------------------------------
// Jobs
// ---------------------------------------------------------------------------

/// Jobs by id, in order.
pub type JobMap = IndexMap<String, Job>;

/// The entries of a map of jobs, in order.
pub uninterp spec fn job_list(m: IndexMap<String, Job>) -> Seq<(Text, JobView)>;

/// `IndexMap::new`: no entries.
#[verifier::external_body]
pub(crate) fn job_new() -> (r: JobMap)
    ensures
        job_list(r) == Seq::<(Text, JobView)>::empty(),
{
    IndexMap::new()
}

/// `IndexMap::len`: the number of entries, which is the number of different keys.
#[verifier::external_body]
pub(crate) fn job_len(m: &JobMap) -> (r: usize)
    ensures
        r == job_list(*m).len(),
        r == keys_of(job_list(*m)).to_set().len(),
{
    m.len()
}

/// `IndexMap::get_index`: the entry at a position.
#[verifier::external_body]
pub(crate) fn job_at(m: &JobMap, i: usize) -> (r: (&String, &Job))
    requires
        i < job_list(*m).len(),
    ensures
        (r.0@, r.1@) == job_list(*m)[i as int],
{
    m.get_index(i).unwrap()
}

/// `IndexMap::insert`: a key that is there keeps its place and takes the new
/// value, a new one goes to the end.
#[verifier::external_body]
pub(crate) fn job_put(m: &mut JobMap, k: String, v: Job)
    ensures
        job_list(*final(m)) == put(job_list(*old(m)), k@, v@),
{
    m.insert(k, v);
}

/// `IndexMap::get`: the value of a key.
#[verifier::external_body]
pub(crate) fn job_get<'a>(m: &'a JobMap, k: &str) -> (r: Option<&'a Job>)
    ensures
        match r {
            Some(v) => lookup(job_list(*m), k@) == Some(v@),
            None => lookup(job_list(*m), k@) is None,
        },
{
    m.get(k)
}

// ---------------------------------------------------------------------------
// Dimensions
// ---------------------------------------------------------------------------

/// The values of the dimensions of a matrix by name, in order.
pub type DimensionMap = IndexMap<String, Vec<String>>;

/// The entries of a map of dimensions, in order.
pub uninterp spec fn dimension_list(m: IndexMap<String, Vec<String>>) -> Seq<(Text, Seq<Text>)>;

/// `IndexMap::new`: no entries.
#[verifier::external_body]
pub(crate) fn dimension_new() -> (r: DimensionMap)
    ensures
        dimension_list(r) == Seq::<(Text, Seq<Text>)>::empty(),
{
    IndexMap::new()
}

/// `IndexMap::len`: the number of entries, which is the number of different keys.
#[verifier::external_body]
pub(crate) fn dimension_len(m: &DimensionMap) -> (r: usize)
    ensures
        r == dimension_list(*m).len(),
        r == keys_of(dimension_list(*m)).to_set().len(),
{
    m.len()
}

/// `IndexMap::get_index`: the entry at a position.
#[verifier::external_body]
pub(crate) fn dimension_at(m: &DimensionMap, i: usize) -> (r: (&String, &Vec<String>))
    requires
        i < dimension_list(*m).len(),
    ensures
        (r.0@, texts(r.1@)) == dimension_list(*m)[i as int],
{
    m.get_index(i).unwrap()
}

/// `IndexMap::insert`: a key that is there keeps its place and takes the new
/// value, a new one goes to the end.
#[verifier::external_body]
pub(crate) fn dimension_put(m: &mut DimensionMap, k: String, v: Vec<String>)
    ensures
        dimension_list(*final(m)) == put(dimension_list(*old(m)), k@, texts(v@)),
{
    m.insert(k, v);
}

/// `IndexMap::get`: the value of a key.
#[verifier::external_body]
pub(crate) fn dimension_get<'a>(m: &'a DimensionMap, k: &str) -> (r: Option<&'a Vec<String>>)
    ensures
        match r {
            Some(v) => lookup(dimension_list(*m), k@) == Some(texts(v@)),
            None => lookup(dimension_list(*m), k@) is None,
        },
{
    m.get(k)
}

// ---------------------------------------------------------------------------
// Inputs
// ---------------------------------------------------------------------------

/// The inputs of an action by name, in order.
pub type InputMap = IndexMap<String, ActionInput>;

/// The entries of a map of inputs, in order.
pub uninterp spec fn input_list(m: IndexMap<String, ActionInput>) -> Seq<(Text, InputView)>;

/// `IndexMap::new`: no entries.
#[verifier::external_body]
pub(crate) fn input_new() -> (r: InputMap)
    ensures
        input_list(r) == Seq::<(Text, InputView)>::empty(),
{
    IndexMap::new()
}

/// `IndexMap::len`: the number of entries, which is the number of different keys.
#[verifier::external_body]
pub(crate) fn input_len(m: &InputMap) -> (r: usize)
    ensures
        r == input_list(*m).len(),
        r == keys_of(input_list(*m)).to_set().len(),
{
    m.len()
}

/// `IndexMap::get_index`: the entry at a position.
#[verifier::external_body]
pub(crate) fn input_at(m: &InputMap, i: usize) -> (r: (&String, &ActionInput))
    requires
        i < input_list(*m).len(),
    ensures
        (r.0@, r.1@) == input_list(*m)[i as int],
{
    m.get_index(i).unwrap()
}

/// `IndexMap::insert`: a key that is there keeps its place and takes the new
/// value, a new one goes to the end.
#[verifier::external_body]
pub(crate) fn input_put(m: &mut InputMap, k: String, v: ActionInput)
    ensures
        input_list(*final(m)) == put(input_list(*old(m)), k@, v@),
{
    m.insert(k, v);
}

// ---------------------------------------------------------------------------
// Outputs
// ---------------------------------------------------------------------------

/// The outputs of an action by name, in order.
pub type OutputMap = IndexMap<String, ActionOutput>;

/// The entries of a map of outputs, in order.
pub uninterp spec fn output_list(m: IndexMap<String, ActionOutput>) -> Seq<(Text, Option<Text>)>;

/// `IndexMap::new`: no entries.
#[verifier::external_body]
pub(crate) fn output_new() -> (r: OutputMap)
    ensures
        output_list(r) == Seq::<(Text, Option<Text>)>::empty(),
{
    IndexMap::new()
}

/// `IndexMap::len`: the number of entries, which is the number of different keys.
#[verifier::external_body]
pub(crate) fn output_len(m: &OutputMap) -> (r: usize)
    ensures
        r == output_list(*m).len(),
        r == keys_of(output_list(*m)).to_set().len(),
{
    m.len()
}

/// `IndexMap::get_index`: the entry at a position.
#[verifier::external_body]
pub(crate) fn output_at(m: &OutputMap, i: usize) -> (r: (&String, &ActionOutput))
    requires
        i < output_list(*m).len(),
    ensures
        (r.0@, opt_text(r.1.value)) == output_list(*m)[i as int],
{
    m.get_index(i).unwrap()
}

/// `IndexMap::insert`: a key that is there keeps its place and takes the new
/// value, a new one goes to the end.
#[verifier::external_body]
pub(crate) fn output_put(m: &mut OutputMap, k: String, v: ActionOutput)
    ensures
        output_list(*final(m)) == put(output_list(*old(m)), k@, opt_text(v.value)),
{
    m.insert(k, v);
}

// ---------------------------------------------------------------------------
// Results
// ---------------------------------------------------------------------------

/// The results of jobs by id, in order.
pub type ResultMap = IndexMap<String, JobResult>;

/// The entries of a map of results, in order.
pub uninterp spec fn result_list(m: IndexMap<String, JobResult>) -> Seq<(Text, JobResult)>;

/// `IndexMap::new`: no entries.
#[verifier::external_body]
pub(crate) fn result_new() -> (r: ResultMap)
    ensures
        result_list(r) == Seq::<(Text, JobResult)>::empty(),
{
    IndexMap::new()
}

/// `IndexMap::len`: the number of entries, which is the number of different keys.
#[verifier::external_body]
pub(crate) fn result_len(m: &ResultMap) -> (r: usize)
    ensures
        r == result_list(*m).len(),
        r == keys_of(result_list(*m)).to_set().len(),
{
    m.len()
}

/// `IndexMap::get_index`: the entry at a position.
#[verifier::external_body]
pub(crate) fn result_at(m: &ResultMap, i: usize) -> (r: (&String, &JobResult))
    requires
        i < result_list(*m).len(),
    ensures
        (r.0@, *r.1) == result_list(*m)[i as int],
{
    m.get_index(i).unwrap()
}

/// `IndexMap::insert`: a key that is there keeps its place and takes the new
/// value, a new one goes to the end.
#[verifier::external_body]
pub(crate) fn result_put(m: &mut ResultMap, k: String, v: JobResult)
    ensures
        result_list(*final(m)) == put(result_list(*old(m)), k@, v),
{
    m.insert(k, v);
}

/// `IndexMap::get`: the value of a key.
#[verifier::external_body]
pub(crate) fn result_get<'a>(m: &'a ResultMap, k: &str) -> (r: Option<&'a JobResult>)
    ensures
        match r {
            Some(v) => lookup(result_list(*m), k@) == Some(*v),
            None => lookup(result_list(*m), k@) is None,
        },
{
    m.get(k)
}

// ---------------------------------------------------------------------------
// Copies
// ---------------------------------------------------------------------------

/// `IndexMap::clone`: the same dimensions in the same order.
#[verifier::external_body]
pub(crate) fn dimension_copy(m: &DimensionMap) -> (r: DimensionMap)
    ensures
        dimension_list(r) == dimension_list(*m),
{
    m.clone()
}

/// A copy of jobs by id.
pub fn copy_jobs(m: &JobMap) -> (r: JobMap)
    ensures
        job_list(r) == job_list(*m),
{
    let ghost all = job_list(*m);
    let n = job_len(m);
    let mut out = job_new();
    let mut i: usize = 0;
    proof {
        lemma_distinct(all);
        law_distinct_pairs_are_kept(all);
        assert(all.take(0) =~= Seq::empty());
    }
    while i < n
        invariant
            i <= n,
            n == all.len(),
            all == job_list(*m),
            job_list(out) == collected(all.take(i as int)),
        decreases n - i,
    {
        let (k, j) = job_at(m, i);
        assert(all.take(i + 1).drop_last() =~= all.take(i as int));
        assert(all.take(i + 1).last() == (k@, j@));
        job_put(&mut out, k.clone(), j.clone());
        i += 1;
    }
    assert(all.take(n as int) =~= all);
    out
}

} // verus!
