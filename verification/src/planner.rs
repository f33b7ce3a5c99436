//! The download planner: where an item is kept locally, and whether it still
//! has to be fetched.

use vstd::prelude::*;
use crate::model::{ClassificationError, Mediafile};
use crate::text::{append_chars, from_chars, to_chars};

verus! {

/// The ending that marks a downloaded video as not yet normalized.
pub open spec fn raw_suffix() -> Seq<char> {
    ".uncompressed"@
}

/// Where an item is kept locally.
#[derive(Clone, Debug)]
pub struct Target {
    /// The path of the finished file.
    pub path: String,
    /// Videos are first saved beside it, under the raw ending.
    pub is_video: bool,
}

impl Target {
    /// The path of the raw file of a video.
    pub open spec fn spec_raw_path(&self) -> Seq<char> {
        self.path@ + raw_suffix()
    }

    /// The path that a download of the item writes.
    pub open spec fn spec_save_path(&self) -> Seq<char> {
        if self.is_video {
            self.spec_raw_path()
        } else {
            self.path@
        }
    }

    /// The item has to be fetched into a directory that holds `existing`.
    pub open spec fn wanted(&self, existing: Set<Seq<char>>) -> bool {
        !existing.contains(self.path@) && !existing.contains(self.spec_save_path())
    }

    /// The path of the raw file of a video.
    pub fn raw_path(&self) -> (r: String)
        ensures
            r@ == self.spec_raw_path(),
    {
        let mut chars = to_chars(self.path.as_str());
        append_chars(&mut chars, &to_chars(".uncompressed"));
        from_chars(&chars)
    }

    /// The path that a download of the item writes: the raw path for a video,
    /// the finished path for anything else.
    pub fn save_path(&self) -> (r: String)
        ensures
            r@ == self.spec_save_path(),
    {
        if self.is_video {
            self.raw_path()
        } else {
            self.path.clone()
        }
    }

    /// Whether the item still has to be fetched, given which of its files
    /// exist. A finished file settles it; so does the raw file of a video,
    /// which is left for normalization to finish.
    pub fn needs_download(&self, finished_exists: bool, raw_exists: bool) -> (r: bool)
        ensures
            r == (!finished_exists && !(self.is_video && raw_exists)),
            forall|existing: Set<Seq<char>>|
                finished_exists == existing.contains(self.path@) && raw_exists
                    == existing.contains(self.spec_raw_path()) ==> r == #[trigger] self.wanted(
                    existing,
                ),
    {
        !finished_exists && !(self.is_video && raw_exists)
    }
}

/// `target` is where `item` is kept under `directory`.
pub open spec fn is_target_of(target: Target, item: Mediafile, directory: Seq<char>) -> bool {
    &&& item.spec_suggested_file_name(directory) == Ok::<Seq<char>, ClassificationError>(
        target.path@,
    )
    &&& target.is_video == item.spec_is_video()
}

/// Where `item` is kept under `output_directory`.
pub fn target_of(item: &Mediafile, output_directory: &str) -> (r: Result<
    Target,
    ClassificationError,
>)
    ensures
        match r {
            Ok(target) => is_target_of(target, *item, output_directory@),
            Err(e) => item.spec_suggested_file_name(output_directory@) == Err::<
                Seq<char>,
                ClassificationError,
            >(e),
        },
{
    match item.suggested_file_name(output_directory) {
        Ok(path) => Ok(Target { path, is_video: item.is_video() }),
        Err(e) => Err(e),
    }
}

/// Where each of `items` is kept under `output_directory`, in their order.
/// The first item that cannot be named ends it with its error.
pub fn targets_of(items: &Vec<Mediafile>, output_directory: &str) -> (r: Result<
    Vec<Target>,
    ClassificationError,
>)
    ensures
        match r {
            Ok(targets) => {
                &&& targets@.len() == items@.len()
                &&& forall|i: int|
                    0 <= i < targets@.len() ==> is_target_of(
                        #[trigger] targets@[i],
                        items@[i],
                        output_directory@,
                    )
            },
            Err(e) => exists|k: int|
                {
                    &&& 0 <= k < items@.len()
                    &&& (#[trigger] items@[k]).spec_suggested_file_name(output_directory@) == Err::<
                        Seq<char>,
                        ClassificationError,
                    >(e)
                    &&& forall|j: int|
                        0 <= j < k ==> (#[trigger] items@[j]).spec_suggested_file_name(
                            output_directory@,
                        ) is Ok
                },
        },
{
    let mut targets: Vec<Target> = Vec::new();
    let mut k: usize = 0;
    while k < items.len()
        invariant
            k <= items.len(),
            targets@.len() == k,
            forall|i: int|
                0 <= i < k ==> is_target_of(#[trigger] targets@[i], items@[i], output_directory@),
        decreases items.len() - k,
    {
        match target_of(&items[k], output_directory) {
            Ok(target) => targets.push(target),
            Err(e) => {
                proof {
                    assert forall|j: int| 0 <= j < k implies (
                    #[trigger] items@[j]).spec_suggested_file_name(output_directory@) is Ok by {
                        assert(is_target_of(targets@[j], items@[j], output_directory@));
                    }
                    assert(items@[k as int].spec_suggested_file_name(output_directory@) == Err::<
                        Seq<char>,
                        ClassificationError,
                    >(e));
                }
                return Err(e);
            },
        }
        k += 1;
    }
    Ok(targets)
}

/// What a directory holds after one item was handled: the file that its
/// download wrote, if it was fetched, beside what was there.
pub open spec fn after_item(target: Target, existing: Set<Seq<char>>) -> Set<Seq<char>> {
    if target.wanted(existing) {
        existing.insert(target.spec_save_path())
    } else {
        existing
    }
}

/// What a directory holds after a pass over `targets`, in order.
pub open spec fn after_pass(targets: Seq<Target>, existing: Set<Seq<char>>) -> Set<Seq<char>>
    decreases targets.len(),
{
    if targets.len() == 0 {
        existing
    } else {
        after_item(targets.last(), after_pass(targets.drop_last(), existing))
    }
}

/// The downloads that a pass over `targets` makes, in order: for each item
/// that is wanted when its turn comes, its position and the path to write.
pub open spec fn planned(targets: Seq<Target>, existing: Set<Seq<char>>) -> Seq<
    (int, Seq<char>),
>
    decreases targets.len(),
{
    if targets.len() == 0 {
        Seq::empty()
    } else {
        let before = planned(targets.drop_last(), existing);
        if targets.last().wanted(after_pass(targets.drop_last(), existing)) {
            before.push((targets.len() - 1, targets.last().spec_save_path()))
        } else {
            before
        }
    }
}

/// The number of downloads that a pass over `targets` makes.
pub open spec fn downloads(targets: Seq<Target>, existing: Set<Seq<char>>) -> nat {
    planned(targets, existing).len()
}

/// The paths that a listing names.
pub open spec fn paths_of(listing: Seq<String>) -> Set<Seq<char>> {
    Set::new(|p: Seq<char>| exists|i: int| 0 <= i < listing.len() && listing[i]@ == p)
}

/// One download that a pass has to make.
#[derive(Clone, Debug)]
pub struct Download {
    /// The position of the item among the targets.
    pub item: usize,
    /// The path that the download writes.
    pub path: String,
}

/// `work` is the list of downloads `plan`.
pub open spec fn is_work(work: Seq<Download>, plan: Seq<(int, Seq<char>)>) -> bool {
    &&& work.len() == plan.len()
    &&& forall|i: int|
        0 <= i < work.len() ==> (#[trigger] work[i]).item == plan[i].0 && work[i].path@
            == plan[i].1
}

/// A listing that gains one path names that path beside the others.
pub proof fn lemma_paths_of_push(listing: Seq<String>, path: String)
    ensures
        paths_of(listing.push(path)) == paths_of(listing).insert(path@),
{
    let longer = listing.push(path);
    assert forall|p: Seq<char>| paths_of(longer).contains(p) <==> paths_of(listing).insert(
        path@,
    ).contains(p) by {
        if paths_of(longer).contains(p) {
            let i = choose|i: int| 0 <= i < longer.len() && longer[i]@ == p;
            if i < listing.len() {
                assert(listing[i]@ == p);
            }
        }
        if paths_of(listing).contains(p) {
            let i = choose|i: int| 0 <= i < listing.len() && listing[i]@ == p;
            assert(longer[i]@ == p);
        }
        if p == path@ {
            assert(longer[listing.len() as int]@ == p);
        }
    }
    assert(paths_of(longer) =~= paths_of(listing).insert(path@));
}

/// Whether `listing` names `path`.
pub fn holds_path(listing: &Vec<String>, path: &String) -> (r: bool)
    ensures
        r == paths_of(listing@).contains(path@),
{
    let mut i: usize = 0;
    while i < listing.len()
        invariant
            i <= listing.len(),
            forall|j: int| 0 <= j < i ==> listing@[j]@ != path@,
        decreases listing.len() - i,
    {
        if listing[i] == *path {
            assert(listing@[i as int]@ == path@);
            return true;
        }
        i += 1;
    }
    false
}

/// The downloads that a pass over `targets` has to make in a directory that
/// holds the paths of `existing`: one for each item that is wanted when its
/// turn comes, counting what the pass itself has written by then.
pub fn work_list(targets: &Vec<Target>, existing: Vec<String>) -> (work: Vec<Download>)
    ensures
        is_work(work@, planned(targets@, paths_of(existing@))),
        work@.len() == downloads(targets@, paths_of(existing@)),
{
    let ghost start = paths_of(existing@);
    let mut directory = existing;
    let mut work: Vec<Download> = Vec::new();
    let mut k: usize = 0;
    assert(targets@.take(0) =~= Seq::<Target>::empty());
    while k < targets.len()
        invariant
            k <= targets.len(),
            paths_of(directory@) == after_pass(targets@.take(k as int), start),
            is_work(work@, planned(targets@.take(k as int), start)),
        decreases targets.len() - k,
    {
        proof {
            assert(targets@.take(k + 1).drop_last() =~= targets@.take(k as int));
            assert(targets@.take(k + 1).last() == targets@[k as int]);
        }
        let target = &targets[k];
        let save = target.save_path();
        if !holds_path(&directory, &target.path) && !holds_path(&directory, &save) {
            proof {
                lemma_paths_of_push(directory@, save);
            }
            work.push(Download { item: k, path: save.clone() });
            directory.push(save);
        }
        k += 1;
    }
    assert(targets@.take(targets@.len() as int) =~= targets@);
    work
}

/// A pass over items of which none is wanted fetches nothing and leaves the
/// directory as it is.
pub proof fn lemma_idle_pass(targets: Seq<Target>, existing: Set<Seq<char>>)
    requires
        forall|i: int| 0 <= i < targets.len() ==> !(#[trigger] targets[i]).wanted(existing),
    ensures
        downloads(targets, existing) == 0,
        after_pass(targets, existing) == existing,
    decreases targets.len(),
{
    if targets.len() > 0 {
        let front = targets.drop_last();
        assert forall|i: int| 0 <= i < front.len() implies !(#[trigger] front[i]).wanted(
            existing,
        ) by {
            assert(front[i] == targets[i]);
        }
        lemma_idle_pass(front, existing);
        assert(!targets[targets.len() - 1].wanted(existing));
    }
}

/// A pass removes nothing, and after it none of its items is wanted.
pub proof fn lemma_pass_settles(targets: Seq<Target>, existing: Set<Seq<char>>)
    ensures
        existing.subset_of(after_pass(targets, existing)),
        forall|i: int|
            0 <= i < targets.len() ==> !(#[trigger] targets[i]).wanted(
                after_pass(targets, existing),
            ),
    decreases targets.len(),
{
    if targets.len() > 0 {
        let front = targets.drop_last();
        lemma_pass_settles(front, existing);
        let before = after_pass(front, existing);
        let after = after_pass(targets, existing);
        assert(before.subset_of(after));
        assert forall|i: int| 0 <= i < targets.len() implies !(#[trigger] targets[i]).wanted(
            after,
        ) by {
            if i < front.len() {
                assert(front[i] == targets[i]);
                assert(!front[i].wanted(before));
            }
        }
    }
}

/// Running the pass a second time on the directory that the first pass left
/// fetches nothing and changes nothing.
pub proof fn lemma_second_pass_is_idle(targets: Seq<Target>, existing: Set<Seq<char>>)
    ensures
        downloads(targets, after_pass(targets, existing)) == 0,
        after_pass(targets, after_pass(targets, existing)) == after_pass(targets, existing),
{
    lemma_pass_settles(targets, existing);
    lemma_idle_pass(targets, after_pass(targets, existing));
}

/// The paths that the downloads of `plan` write.
pub open spec fn written(plan: Seq<(int, Seq<char>)>) -> Set<Seq<char>> {
    Set::new(|p: Seq<char>| exists|d: int| 0 <= d < plan.len() && plan[d].1 == p)
}

/// After a pass the directory holds what it held before and what the
/// downloads of the pass wrote, and nothing else.
pub proof fn lemma_pass_writes_planned(targets: Seq<Target>, existing: Set<Seq<char>>)
    ensures
        after_pass(targets, existing) == existing.union(written(planned(targets, existing))),
    decreases targets.len(),
{
    let plan = planned(targets, existing);
    if targets.len() == 0 {
        assert(after_pass(targets, existing) =~= existing.union(written(plan)));
    } else {
        let front = targets.drop_last();
        lemma_pass_writes_planned(front, existing);
        let before = planned(front, existing);
        let save = targets.last().spec_save_path();
        assert forall|p: Seq<char>| after_pass(targets, existing).contains(p)
            <==> existing.union(written(plan)).contains(p) by {
            if written(before).contains(p) {
                let d = choose|d: int| 0 <= d < before.len() && before[d].1 == p;
                assert(plan[d].1 == p);
            }
            if written(plan).contains(p) {
                let d = choose|d: int| 0 <= d < plan.len() && plan[d].1 == p;
                if d < before.len() {
                    assert(before[d].1 == p);
                }
            }
            if targets.last().wanted(after_pass(front, existing)) {
                assert(plan[before.len() as int].1 == save);
            }
        }
        assert(after_pass(targets, existing) =~= existing.union(written(plan)));
    }
}

/// A second run finds nothing to do: in the directory that holds what was
/// there and what the downloads of a pass wrote, the same pass makes no
/// download.
pub proof fn lemma_rerun_is_idle(targets: Seq<Target>, existing: Set<Seq<char>>)
    ensures
        downloads(targets, existing.union(written(planned(targets, existing)))) == 0,
{
    lemma_pass_writes_planned(targets, existing);
    lemma_second_pass_is_idle(targets, existing);
}

/// What the first `i` downloads of a plan write and what the others write
/// is together what the plan writes.
pub proof fn lemma_written_split(plan: Seq<(int, Seq<char>)>, i: int)
    requires
        0 <= i <= plan.len(),
    ensures
        written(plan.take(i)).union(written(plan.skip(i))) == written(plan),
{
    let first = plan.take(i);
    let rest = plan.skip(i);
    assert forall|p: Seq<char>| written(first).union(written(rest)).contains(p) <==> written(
        plan,
    ).contains(p) by {
        if written(first).contains(p) {
            let d = choose|d: int| 0 <= d < first.len() && first[d].1 == p;
            assert(plan[d].1 == p);
        }
        if written(rest).contains(p) {
            let d = choose|d: int| 0 <= d < rest.len() && rest[d].1 == p;
            assert(plan[d + i].1 == p);
        }
        if written(plan).contains(p) {
            let d = choose|d: int| 0 <= d < plan.len() && plan[d].1 == p;
            if d < i {
                assert(first[d].1 == p);
            } else {
                assert(rest[d - i].1 == p);
            }
        }
    }
    assert(written(first).union(written(rest)) =~= written(plan));
}

/// A pass that broke off after its first `i` downloads is taken up where it
/// stopped: in the directory that holds what was there and what those
/// downloads wrote, the pass plans exactly the downloads that were left, in
/// their order, and none of those that were made.
pub proof fn lemma_rerun_after_break(targets: Seq<Target>, existing: Set<Seq<char>>, i: int)
    requires
        0 <= i <= planned(targets, existing).len(),
    ensures
        planned(targets, existing.union(written(planned(targets, existing).take(i))))
            == planned(targets, existing).skip(i),
    decreases targets.len(),
{
    let plan = planned(targets, existing);
    let later = existing.union(written(plan.take(i)));
    if targets.len() == 0 {
        assert(planned(targets, later) =~= plan.skip(i));
    } else {
        let front = targets.drop_last();
        let before = planned(front, existing);
        if i <= before.len() {
            assert(plan.take(i) =~= before.take(i));
            lemma_rerun_after_break(front, existing, i);
            lemma_pass_writes_planned(front, later);
            lemma_pass_writes_planned(front, existing);
            lemma_written_split(before, i);
            assert(after_pass(front, later) =~= after_pass(front, existing));
            assert(planned(targets, later) =~= plan.skip(i));
        } else {
            assert(plan.take(i) =~= plan);
            lemma_rerun_is_idle(targets, existing);
            assert(planned(targets, later) =~= plan.skip(i));
        }
    }
}

/// A pass never fetches an item whose finished file is already there.
pub proof fn lemma_existing_file_is_skipped(
    targets: Seq<Target>,
    existing: Set<Seq<char>>,
    k: int,
    d: int,
)
    requires
        0 <= k < targets.len(),
        existing.contains(targets[k].path@),
        0 <= d < planned(targets, existing).len(),
    ensures
        planned(targets, existing)[d].0 != k,
    decreases targets.len(),
{
    let front = targets.drop_last();
    lemma_pass_settles(front, existing);
    lemma_planned_positions(front, existing);
    if d < planned(front, existing).len() {
        if k < front.len() {
            lemma_existing_file_is_skipped(front, existing, k, d);
        }
    }
}

/// The downloads of a pass name positions among its items.
pub proof fn lemma_planned_positions(targets: Seq<Target>, existing: Set<Seq<char>>)
    ensures
        planned(targets, existing).len() <= targets.len(),
        forall|d: int|
            0 <= d < planned(targets, existing).len() ==> 0 <= (#[trigger] planned(
                targets,
                existing,
            )[d]).0 < targets.len(),
    decreases targets.len(),
{
    if targets.len() > 0 {
        lemma_planned_positions(targets.drop_last(), existing);
    }
}

} // verus!
