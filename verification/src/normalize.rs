//! The normalization pass: which files of a directory are raw videos, and
//! what each of them is turned into.

use vstd::prelude::*;
use crate::planner::raw_suffix;
use crate::text::{append_chars, from_chars, has_suffix, slice_chars, to_chars};
use crate::text::ends_with;

verus! {

/// One raw video and the file that it is turned into.
#[derive(Clone, Debug)]
pub struct Job {
    /// The path of the raw file.
    pub source: String,
    /// The path of the finished file.
    pub destination: String,
}

/// What is done to the files of a job once the transcoder has run.
#[derive(Clone, Copy, Debug, PartialEq, Eq, Structural)]
pub enum Step {
    /// The finished file takes over the modification time of the raw file.
    CopyTime,
    /// The raw file is removed.
    RemoveRaw,
}

/// The name is that of a raw video.
pub open spec fn is_raw(name: Seq<char>) -> bool {
    ends_with(name, raw_suffix())
}

/// The name of the finished file of a raw video: its name without the raw
/// ending at its end. A name that does not end so is its own finished name.
pub open spec fn finished_name(name: Seq<char>) -> Seq<char> {
    if is_raw(name) {
        name.take(name.len() - raw_suffix().len())
    } else {
        name
    }
}

/// The path of `name` in `directory`.
pub open spec fn path_in(directory: Seq<char>, name: Seq<char>) -> Seq<char> {
    directory + seq!['/'] + name
}

/// The names of the raw videos among `names`, in their order.
pub open spec fn raw_names(names: Seq<String>) -> Seq<Seq<char>>
    decreases names.len(),
{
    if names.len() == 0 {
        Seq::empty()
    } else if is_raw(names.last()@) {
        raw_names(names.drop_last()).push(names.last()@)
    } else {
        raw_names(names.drop_last())
    }
}

/// Whether the name is that of a raw video.
pub fn is_raw_name(name: &str) -> (r: bool)
    ensures
        r == is_raw(name@),
{
    has_suffix(&to_chars(name), &to_chars(".uncompressed"))
}

/// The path of `name` in `directory`.
pub fn join_path(directory: &str, name: &str) -> (r: String)
    ensures
        r@ == path_in(directory@, name@),
{
    let mut path = to_chars(directory);
    path.push('/');
    append_chars(&mut path, &to_chars(name));
    assert(path@ =~= path_in(directory@, name@));
    from_chars(&path)
}

/// The paths of the files `names` in `directory`, in their order.
pub fn paths_in(directory: &str, names: &Vec<String>) -> (paths: Vec<String>)
    ensures
        paths@.len() == names@.len(),
        forall|i: int|
            0 <= i < paths@.len() ==> (#[trigger] paths@[i])@ == path_in(directory@, names@[i]@),
{
    let mut paths: Vec<String> = Vec::new();
    let mut k: usize = 0;
    while k < names.len()
        invariant
            k <= names.len(),
            paths@.len() == k,
            forall|i: int|
                0 <= i < k ==> (#[trigger] paths@[i])@ == path_in(directory@, names@[i]@),
        decreases names.len() - k,
    {
        paths.push(join_path(directory, names[k].as_str()));
        k += 1;
    }
    paths
}

/// The job for the raw video `name` in `directory`.
pub fn job_for(directory: &str, name: &str) -> (job: Job)
    ensures
        job.source@ == path_in(directory@, name@),
        job.destination@ == path_in(directory@, finished_name(name@)),
{
    let chars = to_chars(name);
    let suffix = to_chars(".uncompressed");
    let finished = if has_suffix(&chars, &suffix) {
        from_chars(&slice_chars(&chars, 0, chars.len() - suffix.len()))
    } else {
        from_chars(&chars)
    };
    assert(finished@ =~= finished_name(name@));
    Job {
        source: join_path(directory, name),
        destination: join_path(directory, finished.as_str()),
    }
}

/// What follows the transcoder's run on a job. Where the finished file was
/// produced, it first takes over the raw file's modification time, then the
/// raw file is removed; where it was not, both files are left as they are and
/// the raw file waits for the next pass.
pub fn after_transcoding(produced: bool) -> (steps: Vec<Step>)
    ensures
        produced ==> steps@ == seq![Step::CopyTime, Step::RemoveRaw],
        !produced ==> steps@ == Seq::<Step>::empty(),
{
    let mut steps: Vec<Step> = Vec::new();
    if produced {
        steps.push(Step::CopyTime);
        steps.push(Step::RemoveRaw);
        assert(steps@ =~= seq![Step::CopyTime, Step::RemoveRaw]);
    }
    steps
}

/// The work of a pass over a directory that holds the files `names`: one job
/// for each raw video, in the order of the names. Files without the raw
/// ending are left alone, so a directory that was normalized gives no work.
pub fn plan(directory: &str, names: &Vec<String>) -> (jobs: Vec<Job>)
    ensures
        jobs@.len() == raw_names(names@).len(),
        forall|i: int|
            0 <= i < jobs@.len() ==> {
                &&& (#[trigger] jobs@[i]).source@ == path_in(directory@, raw_names(names@)[i])
                &&& jobs@[i].destination@ == path_in(
                    directory@,
                    finished_name(raw_names(names@)[i]),
                )
            },
{
    let mut jobs: Vec<Job> = Vec::new();
    let mut k: usize = 0;
    assert(names@.take(0) =~= Seq::<String>::empty());
    while k < names.len()
        invariant
            k <= names.len(),
            jobs@.len() == raw_names(names@.take(k as int)).len(),
            forall|i: int|
                0 <= i < jobs@.len() ==> {
                    &&& (#[trigger] jobs@[i]).source@ == path_in(
                        directory@,
                        raw_names(names@.take(k as int))[i],
                    )
                    &&& jobs@[i].destination@ == path_in(
                        directory@,
                        finished_name(raw_names(names@.take(k as int))[i]),
                    )
                },
        decreases names.len() - k,
    {
        proof {
            assert(names@.take(k + 1).drop_last() =~= names@.take(k as int));
            assert(names@.take(k + 1).last() == names@[k as int]);
        }
        if is_raw_name(names[k].as_str()) {
            jobs.push(job_for(directory, names[k].as_str()));
        }
        k += 1;
    }
    assert(names@.take(names@.len() as int) =~= names@);
    jobs
}

/// The finished name and the raw ending make up the raw name again, and the
/// finished name of what a download saved under the raw ending is the name
/// that the item is kept under.
pub proof fn lemma_finished_name_inverts_raw_ending(name: Seq<char>)
    ensures
        is_raw(name) ==> finished_name(name) + raw_suffix() == name,
        is_raw(name + raw_suffix()),
        finished_name(name + raw_suffix()) == name,
{
    let n = raw_suffix().len() as int;
    if is_raw(name) {
        assert(name.take(name.len() - n) + name.subrange(name.len() - n, name.len() as int)
            =~= name);
    }
    let raw = name + raw_suffix();
    assert(raw.subrange(raw.len() - n, raw.len() as int) =~= raw_suffix());
    assert(raw.take(raw.len() - n) =~= name);
}

/// A directory without raw videos gives no work: a pass that went through
/// leaves nothing for the next one.
pub proof fn lemma_no_raw_no_work(names: Seq<String>)
    requires
        forall|i: int| 0 <= i < names.len() ==> !is_raw(#[trigger] names[i]@),
    ensures
        raw_names(names).len() == 0,
    decreases names.len(),
{
    if names.len() > 0 {
        let front = names.drop_last();
        assert forall|i: int| 0 <= i < front.len() implies !is_raw(#[trigger] front[i]@) by {
            assert(front[i] == names[i]);
        }
        lemma_no_raw_no_work(front);
        assert(!is_raw(names[names.len() - 1]@));
    }
}

} // verus!
