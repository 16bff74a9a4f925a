//! Grouping the steps of a plan into batch requests.
use vstd::prelude::*;

use crate::batch::{MAX_BATCH_FILE_BYTES, MAX_BATCH_INLINE_BYTES, MAX_BATCH_ITEMS};
use crate::sync::arrange::views;
use crate::sync::planner::{PlanAction, PlanStep};
use crate::sync::types::{depth_of, path_depth};

verus! {

/// The steps of references to actions.
pub open spec fn steps_of(actions: Seq<&PlanAction>) -> Seq<PlanStep> {
    Seq::new(actions.len(), |i: int| actions[i]@)
}

/// The steps of groups of references to actions.
pub open spec fn batches_of(batches: Seq<Vec<&PlanAction>>) -> Seq<Seq<PlanStep>> {
    Seq::new(batches.len(), |i: int| steps_of(batches[i]@))
}

/// The steps that make a directory of the given depth, in their order.
pub open spec fn directories_at(steps: Seq<PlanStep>, depth: nat) -> Seq<PlanStep>
    decreases steps.len(),
{
    if steps.len() == 0 {
        Seq::empty()
    } else {
        let rest = directories_at(steps.drop_last(), depth);
        if steps.last() is CreateDirectory && depth_of(steps.last().path()) == depth {
            rest.push(steps.last())
        } else {
            rest
        }
    }
}

/// A list cut into pieces of the given size; only the last one may be smaller.
pub open spec fn pieces(steps: Seq<PlanStep>, size: nat) -> Seq<Seq<PlanStep>>
    decreases steps.len(),
{
    if steps.len() == 0 || size == 0 {
        Seq::empty()
    } else if steps.len() <= size {
        seq![steps]
    } else {
        seq![steps.take(size as int)] + pieces(steps.skip(size as int), size)
    }
}

/// The batches of directories less deep than `depth`, the least deep first.
pub open spec fn directory_batches(steps: Seq<PlanStep>, depth: nat) -> Seq<Seq<PlanStep>>
    decreases depth,
{
    if depth == 0 {
        Seq::empty()
    } else {
        directory_batches(steps, (depth - 1) as nat) + pieces(
            directories_at(steps, (depth - 1) as nat),
            MAX_BATCH_ITEMS as nat,
        )
    }
}

/// A depth that no directory of the steps reaches.
pub open spec fn depth_bound(steps: Seq<PlanStep>) -> nat
    decreases steps.len(),
{
    if steps.len() == 0 {
        0
    } else {
        let rest = depth_bound(steps.drop_last());
        let own = depth_of(steps.last().path()) + 1;
        if steps.last() is CreateDirectory && own > rest {
            own
        } else {
            rest
        }
    }
}

fn deepest_directory(actions: &[PlanAction]) -> (r: Option<usize>)
    ensures
        match r {
            Some(depth) => depth_bound(views(actions@)) == depth + 1,
            None => depth_bound(views(actions@)) == 0,
        },
{
    let mut r: Option<usize> = None;
    let ghost all = views(actions@);
    assert(all.take(0) =~= Seq::empty());
    for i in 0..actions.len()
        invariant
            all == views(actions@),
            match r {
                Some(depth) => depth_bound(all.take(i as int)) == depth + 1,
                None => depth_bound(all.take(i as int)) == 0,
            },
    {
        assert(all.take(i + 1).drop_last() =~= all.take(i as int));
        assert(all.take(i + 1).last() == actions@[i as int]@);
        if let PlanAction::CreateDirectory { path } = &actions[i] {
            let depth: usize = path_depth(path.as_str());
            let deeper = match r {
                Some(known) => depth > known,
                None => true,
            };
            if deeper {
                r = Some(depth);
            }
        }
    }
    assert(all.take(all.len() as int) =~= all);
    r
}

fn collect_directories<'a>(actions: &'a [PlanAction], depth: usize) -> (r: Vec<&'a PlanAction>)
    ensures
        steps_of(r@) == directories_at(views(actions@), depth as nat),
{
    let mut r: Vec<&'a PlanAction> = Vec::new();
    let ghost all = views(actions@);
    assert(all.take(0) =~= Seq::empty());
    assert(steps_of(r@) =~= Seq::empty());
    for i in 0..actions.len()
        invariant
            all == views(actions@),
            steps_of(r@) == directories_at(all.take(i as int), depth as nat),
    {
        assert(all.take(i + 1).drop_last() =~= all.take(i as int));
        assert(all.take(i + 1).last() == actions@[i as int]@);
        if let PlanAction::CreateDirectory { path } = &actions[i] {
            if path_depth(path.as_str()) == depth {
                let ghost before = steps_of(r@);
                r.push(&actions[i]);
                assert(steps_of(r@) =~= before.push(actions@[i as int]@));
            }
        }
    }
    assert(all.take(all.len() as int) =~= all);
    r
}

/// Appends a list, cut into pieces of the size of a batch.
fn push_pieces<'a>(out: &mut Vec<Vec<&'a PlanAction>>, list: Vec<&'a PlanAction>)
    ensures
        batches_of(final(out)@) == batches_of(old(out)@) + pieces(steps_of(list@), MAX_BATCH_ITEMS as nat),
{
    let ghost start = batches_of(out@);
    let ghost all = steps_of(list@);
    let mut from: usize = 0;
    assert(all.skip(0) =~= all);
    assert(start + Seq::<Seq<PlanStep>>::empty() =~= start);
    while from < list.len()
        invariant
            from <= list@.len(),
            all == steps_of(list@),
            start + pieces(all, 32) == batches_of(out@) + pieces(all.skip(from as int), 32),
        decreases list@.len() - from,
    {
        let ghost rest = all.skip(from as int);
        let ghost before = batches_of(out@);
        let size: usize = list.len();
        let n: usize = if size - from < MAX_BATCH_ITEMS { size - from } else { MAX_BATCH_ITEMS };
        let mut piece: Vec<&'a PlanAction> = Vec::new();
        for k in 0..n
            invariant
                from + n <= list@.len() <= usize::MAX,
                piece@.len() == k,
                forall|j: int| 0 <= j < k ==> piece@[j] == list@[from + j],
        {
            piece.push(list[from + k]);
        }
        proof {
            assert(steps_of(piece@) =~= rest.take(n as int));
            assert(rest.skip(n as int) =~= all.skip(from + n));
            if rest.len() <= 32 {
                assert(rest.take(n as int) =~= rest);
                assert(pieces(all.skip(from + n), 32) =~= Seq::empty());
            }
            assert(pieces(rest, 32) =~= seq![rest.take(n as int)] + pieces(all.skip(from + n), 32));
        }
        let ghost group = steps_of(piece@);
        out.push(piece);
        proof {
            assert(batches_of(out@) =~= before.push(group));
            assert(before + pieces(rest, 32) =~= batches_of(out@) + pieces(all.skip(from + n), 32));
        }
        from += n;
    }
    assert(pieces(all.skip(from as int), 32) =~= Seq::empty());
    assert(batches_of(out@) + Seq::<Seq<PlanStep>>::empty() =~= batches_of(out@));
}

/// The batches in which the directories of a plan are made: the least deep
/// first, all of one batch of the same depth.
pub fn directory_action_batches<'a>(actions: &'a [PlanAction]) -> (r: Vec<Vec<&'a PlanAction>>)
    ensures
        batches_of(r@) == directory_batches(views(actions@), depth_bound(views(actions@))),
{
    let mut out: Vec<Vec<&'a PlanAction>> = Vec::new();
    assert(batches_of(out@) =~= Seq::empty());
    if let Some(deepest) = deepest_directory(actions) {
        let mut depth: usize = 0;
        let mut open = true;
        while open
            invariant
                depth <= deepest,
                batches_of(out@) == directory_batches(
                    views(actions@),
                    if open { depth as nat } else { (deepest + 1) as nat },
                ),
            decreases (if open { 1int } else { 0int }) + deepest - depth,
        {
            push_pieces(&mut out, collect_directories(actions, depth));
            if depth == deepest {
                open = false;
            } else {
                depth += 1;
            }
        }
    }
    out
}

proof fn lemma_pieces(steps: Seq<PlanStep>, size: nat, i: int)
    requires
        size > 0,
        0 <= i < pieces(steps, size).len(),
    ensures
        0 < pieces(steps, size)[i].len() <= size,
        forall|k: int| 0 <= k < pieces(steps, size)[i].len() ==> steps.contains(#[trigger] pieces(steps, size)[i][k]),
    decreases steps.len(),
{
    if steps.len() <= size {
        assert(forall|k: int| 0 <= k < steps.len() ==> steps.contains(#[trigger] steps[k]));
    } else if i == 0 {
        let first = steps.take(size as int);
        assert(pieces(steps, size)[0] == first);
        assert forall|k: int| 0 <= k < first.len() implies steps.contains(#[trigger] first[k]) by {
            assert(steps[k] == first[k]);
        }
    } else {
        let rest = steps.skip(size as int);
        lemma_pieces(rest, size, i - 1);
        assert(pieces(steps, size)[i] == pieces(rest, size)[i - 1]);
        assert forall|k: int| 0 <= k < pieces(steps, size)[i].len() implies steps.contains(
            #[trigger] pieces(steps, size)[i][k],
        ) by {
            let value = pieces(rest, size)[i - 1][k];
            assert(rest.contains(value));
            let j = rest.index_of(value);
            assert(steps[size + j] == value);
        }
    }
}

proof fn lemma_directories_at(steps: Seq<PlanStep>, depth: nat, i: int)
    requires
        0 <= i < directories_at(steps, depth).len(),
    ensures
        directories_at(steps, depth)[i] is CreateDirectory,
        depth_of(directories_at(steps, depth)[i].path()) == depth,
        steps.contains(directories_at(steps, depth)[i]),
    decreases steps.len(),
{
    let rest = directories_at(steps.drop_last(), depth);
    if i < rest.len() {
        lemma_directories_at(steps.drop_last(), depth, i);
        let j = steps.drop_last().index_of(rest[i]);
        assert(steps[j] == rest[i]);
    } else {
        assert(steps[steps.len() - 1] == steps.last());
    }
}

/// Every batch of directories holds at least one and at most thirty-two steps
/// of the plan; each makes a directory, all of the same depth; and no batch is
/// less deep than one before it.
pub proof fn law_directory_batches_keep_their_limits(steps: Seq<PlanStep>, depth: nat, i: int, j: int)
    requires
        0 <= i <= j < directory_batches(steps, depth).len(),
    ensures
        0 < directory_batches(steps, depth)[i].len() <= MAX_BATCH_ITEMS,
        forall|k: int|
            0 <= k < directory_batches(steps, depth)[i].len() ==> steps.contains(
                #[trigger] directory_batches(steps, depth)[i][k],
            ) && directory_batches(steps, depth)[i][k] is CreateDirectory && depth_of(
                directory_batches(steps, depth)[i][k].path(),
            ) < depth && depth_of(directory_batches(steps, depth)[i][k].path()) == depth_of(
                directory_batches(steps, depth)[i][0].path(),
            ),
        depth_of(directory_batches(steps, depth)[i][0].path()) <= depth_of(
            directory_batches(steps, depth)[j][0].path(),
        ),
    decreases depth,
{
    let before = directory_batches(steps, (depth - 1) as nat);
    let level = directories_at(steps, (depth - 1) as nat);
    let own = pieces(level, 32);
    let all = directory_batches(steps, depth);
    assert(all =~= before + own);
    if i < before.len() {
        assert(all[i] == before[i]);
        if j < before.len() {
            assert(all[j] == before[j]);
            law_directory_batches_keep_their_limits(steps, (depth - 1) as nat, i, j);
        } else {
            law_directory_batches_keep_their_limits(steps, (depth - 1) as nat, i, i);
        }
    } else {
        lemma_pieces(level, 32, i - before.len());
        assert(all[i] == own[i - before.len()]);
        assert forall|k: int| 0 <= k < all[i].len() implies steps.contains(#[trigger] all[i][k])
            && all[i][k] is CreateDirectory && depth_of(all[i][k].path()) == depth - 1 by {
            let value = all[i][k];
            assert(own[i - before.len()][k] == value);
            let at = level.index_of(value);
            assert(level.contains(value));
            lemma_directories_at(steps, (depth - 1) as nat, at);
        }
    }
    if j >= before.len() {
        lemma_pieces(level, 32, j - before.len());
        assert(all[j] == own[j - before.len()]);
        let value = all[j][0];
        assert(own[j - before.len()][0] == value);
        let at = level.index_of(value);
        assert(level.contains(value));
        lemma_directories_at(steps, (depth - 1) as nat, at);
    }
}

/// Whether a step uploads a file that fits into a batch.
pub open spec fn is_small_upload(step: PlanStep) -> bool {
    step is UploadFile && step.bytes() <= MAX_BATCH_FILE_BYTES
}

/// The bytes that steps upload.
pub open spec fn upload_bytes(steps: Seq<PlanStep>) -> nat
    decreases steps.len(),
{
    if steps.len() == 0 {
        0
    } else {
        upload_bytes(steps.drop_last()) + steps.last().bytes()
    }
}

/// The batches that are full, and the one that is being filled.
pub struct Filling {
    pub done: Seq<Seq<PlanStep>>,
    pub current: Seq<PlanStep>,
}

/// Whether a step no longer fits into a batch that holds something.
pub open spec fn is_full(current: Seq<PlanStep>, step: PlanStep) -> bool {
    current.len() > 0 && (current.len() == MAX_BATCH_ITEMS || upload_bytes(current) + step.bytes()
        > MAX_BATCH_INLINE_BYTES)
}

/// The batches after all steps: each step goes into the batch that is being
/// filled, or begins the next one where it no longer fits.
pub open spec fn fill(steps: Seq<PlanStep>) -> Filling
    decreases steps.len(),
{
    if steps.len() == 0 {
        Filling { done: Seq::empty(), current: Seq::empty() }
    } else {
        let before = fill(steps.drop_last());
        let step = steps.last();
        if !is_small_upload(step) {
            before
        } else if is_full(before.current, step) {
            Filling { done: before.done.push(before.current), current: seq![step] }
        } else {
            Filling { done: before.done, current: before.current.push(step) }
        }
    }
}

/// The batches in which small files are uploaded.
pub open spec fn small_file_batches(steps: Seq<PlanStep>) -> Seq<Seq<PlanStep>> {
    let filling = fill(steps);
    if filling.current.len() > 0 {
        filling.done.push(filling.current)
    } else {
        filling.done
    }
}

/// A batch keeps the limits of a request.
pub open spec fn within_limits(batch: Seq<PlanStep>) -> bool {
    &&& batch.len() <= MAX_BATCH_ITEMS
    &&& upload_bytes(batch) <= MAX_BATCH_INLINE_BYTES
    &&& forall|k: int| 0 <= k < batch.len() ==> is_small_upload(#[trigger] batch[k])
}

proof fn lemma_fill_limits(steps: Seq<PlanStep>)
    ensures
        within_limits(fill(steps).current),
        forall|i: int|
            0 <= i < fill(steps).done.len() ==> within_limits(#[trigger] fill(steps).done[i])
                && fill(steps).done[i].len() > 0,
    decreases steps.len(),
{
    if steps.len() > 0 {
        let before = fill(steps.drop_last());
        lemma_fill_limits(steps.drop_last());
        let step = steps.last();
        if is_small_upload(step) {
            assert(before.current.push(step).drop_last() =~= before.current);
            assert(seq![step].drop_last() =~= Seq::empty());
            reveal_with_fuel(upload_bytes, 2);
            let after = fill(steps);
            assert forall|k: int| 0 <= k < after.current.len() implies is_small_upload(#[trigger] after.current[k]) by {
                if !is_full(before.current, step) && k < before.current.len() {
                    assert(after.current[k] == before.current[k]);
                }
            }
        }
    }
}

/// The batches in which the small files of a plan are uploaded.
pub fn small_file_action_batches<'a>(actions: &'a [PlanAction]) -> (r: Vec<Vec<&'a PlanAction>>)
    ensures
        batches_of(r@) == small_file_batches(views(actions@)),
{
    let mut batches: Vec<Vec<&'a PlanAction>> = Vec::new();
    let mut current: Vec<&'a PlanAction> = Vec::new();
    let mut current_bytes: u64 = 0;
    let ghost all = views(actions@);
    assert(all.take(0) =~= Seq::empty());
    assert(batches_of(batches@) =~= Seq::empty());
    assert(steps_of(current@) =~= Seq::empty());
    for i in 0..actions.len()
        invariant
            all == views(actions@),
            batches_of(batches@) == fill(all.take(i as int)).done,
            steps_of(current@) == fill(all.take(i as int)).current,
            current_bytes == upload_bytes(steps_of(current@)),
            current_bytes <= MAX_BATCH_INLINE_BYTES,
    {
        let ghost before = fill(all.take(i as int));
        proof {
            assert(all.take(i + 1).drop_last() =~= all.take(i as int));
            assert(all.take(i + 1).last() == actions@[i as int]@);
            lemma_fill_limits(all.take(i + 1));
            lemma_fill_limits(all.take(i as int));
        }
        if let PlanAction::UploadFile { size, .. } = &actions[i] {
            let bytes: u64 = *size;
            if bytes <= MAX_BATCH_FILE_BYTES as u64 {
                if current.len() > 0 && (current.len() == MAX_BATCH_ITEMS || current_bytes + bytes
                    > MAX_BATCH_INLINE_BYTES as u64) {
                    let mut full: Vec<&'a PlanAction> = Vec::new();
                    std::mem::swap(&mut full, &mut current);
                    let ghost done = batches_of(batches@);
                    batches.push(full);
                    assert(batches_of(batches@) =~= done.push(before.current));
                    assert(steps_of(current@) =~= Seq::empty());
                    current_bytes = 0;
                }
                let ghost filled = steps_of(current@);
                current.push(&actions[i]);
                proof {
                    assert(steps_of(current@) =~= filled.push(actions@[i as int]@));
                    assert(steps_of(current@).drop_last() =~= filled);
                    assert(upload_bytes(filled) == current_bytes);
                    assert(upload_bytes(steps_of(current@)) == upload_bytes(filled) + bytes);
                    if filled.len() == 0 {
                        assert(steps_of(current@) =~= seq![actions@[i as int]@]);
                    }
                }
                current_bytes = current_bytes + bytes;
            }
        }
    }
    assert(all.take(all.len() as int) =~= all);
    if current.len() > 0 {
        let ghost done = batches_of(batches@);
        let ghost last = steps_of(current@);
        batches.push(current);
        assert(batches_of(batches@) =~= done.push(last));
    }
    batches
}

/// Every batch of small files holds at least one and at most thirty-two
/// uploads, each of at most 256 KiB and together of at most 1.5 MiB.
pub proof fn law_small_file_batches_keep_their_limits(steps: Seq<PlanStep>, i: int)
    requires
        0 <= i < small_file_batches(steps).len(),
    ensures
        within_limits(small_file_batches(steps)[i]),
        small_file_batches(steps)[i].len() > 0,
{
    lemma_fill_limits(steps);
    if i < fill(steps).done.len() {
        assert(small_file_batches(steps)[i] == fill(steps).done[i]);
    }
}

/// The small uploads of a list, in their order.
pub open spec fn small_uploads(steps: Seq<PlanStep>) -> Seq<PlanStep>
    decreases steps.len(),
{
    if steps.len() == 0 {
        Seq::empty()
    } else if is_small_upload(steps.last()) {
        small_uploads(steps.drop_last()).push(steps.last())
    } else {
        small_uploads(steps.drop_last())
    }
}

/// Batches one behind the other.
pub open spec fn flattened(batches: Seq<Seq<PlanStep>>) -> Seq<PlanStep>
    decreases batches.len(),
{
    if batches.len() == 0 {
        Seq::empty()
    } else {
        flattened(batches.drop_last()) + batches.last()
    }
}

proof fn lemma_fill_complete(steps: Seq<PlanStep>)
    ensures
        flattened(fill(steps).done) + fill(steps).current == small_uploads(steps),
    decreases steps.len(),
{
    if steps.len() > 0 {
        let before = fill(steps.drop_last());
        let step = steps.last();
        lemma_fill_complete(steps.drop_last());
        if is_small_upload(step) {
            if is_full(before.current, step) {
                assert(before.done.push(before.current).drop_last() =~= before.done);
                assert(flattened(fill(steps).done) + fill(steps).current =~= (flattened(before.done) + before.current).push(
                    step,
                ));
            } else {
                assert(flattened(before.done) + before.current.push(step) =~= (flattened(before.done)
                    + before.current).push(step));
            }
        }
    } else {
        assert(flattened(fill(steps).done) + fill(steps).current =~= Seq::empty());
    }
}

/// Every small upload of a plan is in exactly one batch, and the order of the
/// plan is kept.
pub proof fn law_small_file_batches_are_complete(steps: Seq<PlanStep>)
    ensures
        flattened(small_file_batches(steps)) == small_uploads(steps),
{
    lemma_fill_complete(steps);
    let filling = fill(steps);
    if filling.current.len() > 0 {
        assert(filling.done.push(filling.current).drop_last() =~= filling.done);
    } else {
        assert(flattened(filling.done) + filling.current =~= flattened(filling.done));
    }
}

proof fn lemma_pieces_flat(steps: Seq<PlanStep>, size: nat)
    requires
        size > 0,
    ensures
        flattened(pieces(steps, size)) == steps,
    decreases steps.len(),
{
    if steps.len() == 0 {
        assert(flattened(pieces(steps, size)) =~= steps);
    } else if steps.len() <= size {
        assert(seq![steps].drop_last() =~= Seq::empty());
        reveal_with_fuel(flattened, 2);
        assert(flattened(seq![steps]) =~= steps);
    } else {
        let first = seq![steps.take(size as int)];
        let rest = pieces(steps.skip(size as int), size);
        lemma_pieces_flat(steps.skip(size as int), size);
        lemma_flattened_add(first, rest);
        assert(first.drop_last() =~= Seq::empty());
        reveal_with_fuel(flattened, 2);
        assert(flattened(first) =~= steps.take(size as int));
        assert(flattened(first + rest) =~= steps);
    }
}

proof fn lemma_flattened_add(a: Seq<Seq<PlanStep>>, b: Seq<Seq<PlanStep>>)
    ensures
        flattened(a + b) == flattened(a) + flattened(b),
    decreases b.len(),
{
    if b.len() == 0 {
        assert(a + b =~= a);
        assert(flattened(a) + flattened(b) =~= flattened(a));
    } else {
        assert((a + b).drop_last() =~= a + b.drop_last());
        lemma_flattened_add(a, b.drop_last());
        assert(flattened(a + b) =~= flattened(a) + flattened(b));
    }
}

/// The directories of one depth go through their batches complete and in the
/// order of the plan.
pub proof fn law_directory_batches_are_complete(steps: Seq<PlanStep>, depth: nat)
    ensures
        flattened(directory_batches(steps, depth + 1)) == flattened(directory_batches(steps, depth)) + directories_at(
            steps,
            depth,
        ),
        directory_batches(steps, 0).len() == 0,
{
    lemma_pieces_flat(directories_at(steps, depth), 32);
    lemma_flattened_add(directory_batches(steps, depth), pieces(directories_at(steps, depth), 32));
}

/// A file is small exactly where it has at most 256 KiB.
pub proof fn law_small_files_have_at_most_256_kib(path: Seq<char>, size: u64, step: PlanStep)
    ensures
        is_small_upload(PlanStep::UploadFile { path, size }) <==> size <= 262144,
        !(step is UploadFile) ==> !is_small_upload(step),
{
}

/// No request holds more than 32 files or more than 1.5 MiB of content, and no
/// request for directories holds more than 32.
pub proof fn law_requests_keep_the_limits_of_the_bucket(steps: Seq<PlanStep>, depth: nat, i: int)
    ensures
        0 <= i < small_file_batches(steps).len() ==> 0 < small_file_batches(steps)[i].len() <= 32 && upload_bytes(
            small_file_batches(steps)[i],
        ) <= 1572864,
        0 <= i < directory_batches(steps, depth).len() ==> 0 < directory_batches(steps, depth)[i].len() <= 32,
{
    if 0 <= i < small_file_batches(steps).len() {
        law_small_file_batches_keep_their_limits(steps, i);
    }
    if 0 <= i < directory_batches(steps, depth).len() {
        law_directory_batches_keep_their_limits(steps, depth, i, i);
    }
}

proof fn lemma_small_uploads(steps: Seq<PlanStep>, step: PlanStep)
    ensures
        small_uploads(steps).contains(step) <==> steps.contains(step) && is_small_upload(step),
    decreases steps.len(),
{
    if steps.len() > 0 {
        let rest = steps.drop_last();
        lemma_small_uploads(rest, step);
        let all = small_uploads(steps);
        let few = small_uploads(rest);
        if steps.contains(step) {
            let i = steps.index_of(step);
            if i < rest.len() {
                assert(rest[i] == step);
            }
        }
        if rest.contains(step) {
            let i = rest.index_of(step);
            assert(steps[i] == step);
        }
        if few.contains(step) {
            let i = few.index_of(step);
            assert(all[i] == step);
        }
        if step == steps.last() {
            assert(steps[steps.len() - 1] == step);
            if is_small_upload(step) {
                assert(all[all.len() - 1] == step);
            }
        }
        if all.contains(step) {
            let i = all.index_of(step);
            if i < few.len() {
                assert(few[i] == step);
            }
        }
    }
}

/// A step goes into a batch of small files exactly where it is an upload of at
/// most 256 KiB.
pub proof fn law_exactly_the_small_uploads_are_batched(steps: Seq<PlanStep>, step: PlanStep)
    ensures
        flattened(small_file_batches(steps)).contains(step) <==> steps.contains(step) && match step {
            PlanStep::UploadFile { size, .. } => size <= 262144,
            _ => false,
        },
{
    law_small_file_batches_are_complete(steps);
    lemma_small_uploads(steps, step);
}

/// Whether a full batch could not have taken the first step of the next one.
spec fn filled_up(filling: Filling, i: int) -> bool {
    let next = if i + 1 < filling.done.len() {
        filling.done[i + 1]
    } else {
        filling.current
    };
    &&& next.len() > 0
    &&& filling.done[i].len() == 32 || upload_bytes(filling.done[i]) + next[0].bytes() > 1572864
}

proof fn lemma_fill_greedy(steps: Seq<PlanStep>)
    ensures
        forall|i: int| 0 <= i < fill(steps).done.len() ==> #[trigger] filled_up(fill(steps), i),
    decreases steps.len(),
{
    if steps.len() > 0 {
        let before = fill(steps.drop_last());
        let after = fill(steps);
        lemma_fill_greedy(steps.drop_last());
        let step = steps.last();
        assert forall|i: int| 0 <= i < after.done.len() implies #[trigger] filled_up(after, i) by {
            if i < before.done.len() {
                assert(filled_up(before, i));
                assert(after.done[i] == before.done[i]);
                if i + 1 < before.done.len() {
                    assert(after.done[i + 1] == before.done[i + 1]);
                } else if is_small_upload(step) {
                    if is_full(before.current, step) {
                        assert(after.done[i + 1] == before.current);
                    } else {
                        assert(after.current[0] == before.current[0]);
                    }
                }
            } else {
                assert(after.done[i] == before.current);
            }
        }
    }
}

/// No request could have taken the file that the next one begins with: it is
/// full with 32 files, or that file would have made it larger than 1.5 MiB.
pub proof fn law_requests_are_as_few_as_possible(steps: Seq<PlanStep>, i: int)
    requires
        0 <= i < small_file_batches(steps).len() - 1,
    ensures
        small_file_batches(steps)[i].len() == 32 || upload_bytes(small_file_batches(steps)[i]) + small_file_batches(
            steps,
        )[i + 1][0].bytes() > 1572864,
{
    lemma_fill_greedy(steps);
    let filling = fill(steps);
    assert(filled_up(filling, i));
    assert(small_file_batches(steps)[i] == filling.done[i]);
    if i + 1 < filling.done.len() {
        assert(small_file_batches(steps)[i + 1] == filling.done[i + 1]);
    }
}

proof fn lemma_directories_listed(steps: Seq<PlanStep>, step: PlanStep)
    requires
        steps.contains(step),
        step is CreateDirectory,
    ensures
        directories_at(steps, depth_of(step.path())).contains(step),
        depth_of(step.path()) < depth_bound(steps),
    decreases steps.len(),
{
    let rest = steps.drop_last();
    let depth = depth_of(step.path());
    let all = directories_at(steps, depth);
    if rest.contains(step) {
        lemma_directories_listed(rest, step);
        let few = directories_at(rest, depth);
        let i = few.index_of(step);
        assert(all[i] == step);
    } else {
        let i = steps.index_of(step);
        if i < rest.len() {
            assert(rest[i] == step);
        }
        assert(all[all.len() - 1] == step);
    }
}

proof fn lemma_directory_batched(steps: Seq<PlanStep>, depth: nat, step: PlanStep)
    requires
        directories_at(steps, depth_of(step.path())).contains(step),
        depth_of(step.path()) < depth,
    ensures
        flattened(directory_batches(steps, depth)).contains(step),
    decreases depth,
{
    let below = (depth - 1) as nat;
    law_directory_batches_are_complete(steps, below);
    let first = flattened(directory_batches(steps, below));
    let last = directories_at(steps, below);
    let all = flattened(directory_batches(steps, depth));
    assert(all == first + last);
    if depth_of(step.path()) < below {
        lemma_directory_batched(steps, below, step);
        let i = first.index_of(step);
        assert(all[i] == step);
    } else {
        let i = last.index_of(step);
        assert(all[first.len() + i] == step);
    }
}

/// Every directory that a plan makes is in a batch.
pub proof fn law_every_directory_is_batched(steps: Seq<PlanStep>, step: PlanStep)
    requires
        steps.contains(step),
        step is CreateDirectory,
    ensures
        flattened(directory_batches(steps, depth_bound(steps))).contains(step),
{
    lemma_directories_listed(steps, step);
    lemma_directory_batched(steps, depth_bound(steps), step);
}

/// The bytes of a list of steps are those of its uploads and replacements,
/// added up.
pub proof fn law_bytes_add_up(steps: Seq<PlanStep>, step: PlanStep)
    ensures
        upload_bytes(Seq::empty()) == 0,
        upload_bytes(steps.push(step)) == upload_bytes(steps) + match step {
            PlanStep::UploadFile { size, .. } => size as nat,
            PlanStep::ReplaceFile { size, .. } => size as nat,
            _ => 0nat,
        },
{
    assert(steps.push(step).drop_last() =~= steps);
}

} // verus!
