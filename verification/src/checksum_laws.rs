//! What a checksum means: it depends on which rows there are, not on their order
//! or on how they are divided, and a request sums every row of every range once.

use vstd::prelude::*;

use crate::checksum::{
    crc64_ecma, rows_bytes, rows_checksum, ChecksumActionView, ChecksumAlgorithm, ChecksumError,
    ChecksumPhase, ChecksumReplyView, ChecksumRequest, ChecksumResponse, ChecksumView, ReqContext,
    RowView,
};

verus! {

proof fn xor_zero(a: u64)
    ensures
        a ^ 0 == a,
{
    assert(a ^ 0 == a) by (bit_vector);
}

proof fn xor_associative(a: u64, b: u64, c: u64)
    ensures
        (a ^ b) ^ c == a ^ (b ^ c),
{
    assert((a ^ b) ^ c == a ^ (b ^ c)) by (bit_vector);
}

proof fn xor_commutative(a: u64, b: u64)
    ensures
        a ^ b == b ^ a,
{
    assert(a ^ b == b ^ a) by (bit_vector);
}

/// Rows can be summed piece by piece: the checksum of two pieces together is the
/// exclusive or of their checksums, and their bytes add up.
pub proof fn checksum_of_pieces(a: Seq<RowView>, b: Seq<RowView>)
    ensures
        rows_checksum(a + b) == rows_checksum(a) ^ rows_checksum(b),
        rows_bytes(a + b) == rows_bytes(a) + rows_bytes(b),
    decreases b.len(),
{
    if b.len() == 0 {
        assert(a + b =~= a);
        xor_zero(rows_checksum(a));
    } else {
        assert((a + b).drop_last() =~= a + b.drop_last());
        checksum_of_pieces(a, b.drop_last());
        xor_associative(
            rows_checksum(a),
            rows_checksum(b.drop_last()),
            crc64_ecma(b.last().0 + b.last().1),
        );
    }
}

/// A checksum does not depend on the order of the rows.
pub proof fn checksum_ignores_order(a: Seq<RowView>, b: Seq<RowView>)
    requires
        a.to_multiset() == b.to_multiset(),
    ensures
        rows_checksum(a) == rows_checksum(b),
        rows_bytes(a) == rows_bytes(b),
        a.len() == b.len(),
    decreases a.len(),
{
    broadcast use vstd::seq_lib::group_to_multiset_ensures;

    assert(a.to_multiset().len() == a.len());
    assert(b.to_multiset().len() == b.len());
    if a.len() == 0 {
        assert(a =~= b);
    } else {
        let row = a.last();
        assert(a.contains(row));
        assert(b.to_multiset().count(row) > 0);
        assert(b.contains(row));
        let i = b.index_of(row);
        let left = b.take(i);
        let right = b.skip(i + 1);
        assert(b =~= left + seq![row] + right);
        assert(b.remove(i) =~= left + right);
        assert(a.remove(a.len() - 1) =~= a.drop_last());
        assert(a.drop_last().to_multiset() =~= (left + right).to_multiset());
        checksum_ignores_order(a.drop_last(), left + right);
        checksum_of_pieces(left, right);
        checksum_of_pieces(left + seq![row], right);
        checksum_of_pieces(left, seq![row]);
        let l = rows_checksum(left);
        let r = rows_checksum(right);
        let c = crc64_ecma(row.0 + row.1);
        assert(seq![row].drop_last() =~= Seq::empty());
        assert(rows_checksum(seq![row]) == 0 ^ c) by {
            assert(rows_checksum(seq![row].drop_last()) == 0);
        }
        assert(rows_bytes(seq![row]) == row.0.len() + row.1.len()) by {
            assert(rows_bytes(seq![row].drop_last()) == 0);
        }
        xor_zero(c);
        xor_commutative(0, c);
        xor_associative(l, c, r);
        xor_commutative(c, r);
        xor_associative(l, r, c);
    }
}

/// Counting the same rows twice takes them out of a checksum again.
pub proof fn checksum_cancels(a: Seq<RowView>)
    ensures
        rows_checksum(a + a) == 0,
{
    checksum_of_pieces(a, a);
    let c = rows_checksum(a);
    assert(c ^ c == 0) by (bit_vector);
}

/// A checksum does not depend on where a row's key ends and its value begins.
pub proof fn checksum_ignores_key_boundary(rows: Seq<RowView>, k: Seq<u8>, v: Seq<u8>, w: Seq<u8>)
    ensures
        rows_checksum(rows.push((k + v, w))) == rows_checksum(rows.push((k, v + w))),
{
    assert(rows.push((k + v, w)).drop_last() =~= rows);
    assert(rows.push((k, v + w)).drop_last() =~= rows);
    assert((k + v) + w =~= k + (v + w));
}

/// The state that a run of replies leads to.
pub open spec fn state_after<E>(start: ChecksumView, replies: Seq<ChecksumReplyView<E>>) -> ChecksumView
    decreases replies.len(),
{
    if replies.len() == 0 {
        start
    } else {
        state_after(start, replies.drop_last()).resume(replies.last()).0
    }
}

/// Whether each of a run of replies answers the action asked for before it.
pub open spec fn answers<E>(start: ChecksumView, replies: Seq<ChecksumReplyView<E>>) -> bool
    decreases replies.len(),
{
    replies.len() > 0 ==> {
        &&& answers(start, replies.drop_last())
        &&& state_after(start, replies.drop_last()).expects(replies.last())
    }
}

/// The actions that a run of replies gives rise to, one for each.
pub open spec fn actions_after<E>(start: ChecksumView, replies: Seq<ChecksumReplyView<E>>) -> Seq<
    ChecksumActionView<E>,
>
    decreases replies.len(),
{
    if replies.len() == 0 {
        Seq::empty()
    } else {
        actions_after(start, replies.drop_last()).push(
            state_after(start, replies.drop_last()).resume(replies.last()).1,
        )
    }
}

/// The rows in a run of replies.
pub open spec fn rows_in<E>(replies: Seq<ChecksumReplyView<E>>) -> Seq<RowView>
    decreases replies.len(),
{
    if replies.len() == 0 {
        Seq::empty()
    } else {
        let rows = rows_in(replies.drop_last());
        match replies.last() {
            ChecksumReplyView::Row(Ok(Some(row))) => rows.push(row),
            _ => rows,
        }
    }
}

/// The ranges that a run of actions begins to scan.
pub open spec fn ranges_in<E>(actions: Seq<ChecksumActionView<E>>) -> Seq<(Seq<u8>, Seq<u8>)>
    decreases actions.len(),
{
    if actions.len() == 0 {
        Seq::empty()
    } else {
        let ranges = ranges_in(actions.drop_last());
        match actions.last() {
            ChecksumActionView::NewScanner(range) => ranges.push(range),
            ChecksumActionView::ResetScanner(range) => ranges.push(range),
            _ => ranges,
        }
    }
}

/// How many times a run of replies says that a range is at its end.
pub open spec fn ends_in<E>(replies: Seq<ChecksumReplyView<E>>) -> nat
    decreases replies.len(),
{
    if replies.len() == 0 {
        0
    } else {
        let ends = ends_in(replies.drop_last());
        match replies.last() {
            ChecksumReplyView::Row(Ok(None)) => ends + 1,
            _ => ends,
        }
    }
}

/// Whether a context is fresh and asks for an algorithm that is known.
pub open spec fn fresh(context: ChecksumView) -> bool {
    &&& context.phase == ChecksumPhase::Idle
    &&& context.begun == 0
    &&& !context.has_scanner
    &&& context.algorithm == ChecksumAlgorithm::Crc64Xor
}

/// At any time the tally sums up exactly the rows read so far, and the ranges begun
/// so far are the first ones of the request, in order and each of them once. A range
/// is begun only when the one before it has been read to its end.
pub proof fn request_sums_rows<E>(context: ChecksumView, replies: Seq<ChecksumReplyView<E>>)
    requires
        fresh(context),
        answers(context.handle_request::<E>().0, replies),
    ensures
        ({
            let (start, first) = context.handle_request::<E>();
            let now = state_after(start, replies);
            &&& now.tally.sums_up(rows_in(replies))
            &&& now.ranges == context.ranges
            &&& 0 <= now.begun <= context.ranges.len()
            &&& ranges_in(seq![first] + actions_after(start, replies)) == context.ranges.take(
                now.begun,
            )
            &&& now.phase == ChecksumPhase::Opening || now.phase == ChecksumPhase::Reading
                ==> ends_in(replies) + 1 == now.begun
            &&& now.phase == ChecksumPhase::Collecting ==> ends_in(replies) == now.begun
        }),
    decreases replies.len(),
{
    let (start, first) = context.handle_request::<E>();
    let now = state_after(start, replies);
    let all = seq![first] + actions_after(start, replies);
    if replies.len() == 0 {
        assert(all =~= seq![first]);
        assert(all.drop_last() =~= Seq::empty());
        assert(ranges_in(all.drop_last()) =~= Seq::empty());
        assert(context.ranges.take(0) =~= Seq::empty());
        if context.ranges.len() > 0 {
            assert(context.ranges.take(1) =~= Seq::empty().push(context.ranges[0]));
        }
        assert(ranges_in(all) =~= context.ranges.take(now.begun));
    } else {
        let front = replies.drop_last();
        let reply = replies.last();
        request_sums_rows(context, front);
        let before = state_after(start, front);
        let action = before.resume(reply).1;
        assert(all.drop_last() =~= seq![first] + actions_after(start, front));
        assert(all.last() == action);
        let rows = rows_in(front);
        if let ChecksumReplyView::Row(Ok(Some(row))) = reply {
            assert(rows.push(row).drop_last() =~= rows);
        }
        if before.begun < context.ranges.len() {
            assert(context.ranges.take(before.begun + 1) =~= context.ranges.take(
                before.begun,
            ).push(context.ranges[before.begun]));
        }
    }
}

/// A request that is answered without an error has read every range to its end, and
/// its answer sums up every row that was read.
pub proof fn answer_is_complete<E>(context: ChecksumView, replies: Seq<ChecksumReplyView<E>>)
    requires
        fresh(context),
        answers(context.handle_request::<E>().0, replies),
    ensures
        ({
            let (start, first) = context.handle_request::<E>();
            let all = seq![first] + actions_after(start, replies);
            all.last() matches ChecksumActionView::Finish(Ok(response)) ==> {
                &&& response.sums_up(rows_in(replies))
                &&& ranges_in(all) == context.ranges
                &&& ends_in(replies) == context.ranges.len()
            }
        }),
{
    let (start, first) = context.handle_request::<E>();
    let all = seq![first] + actions_after(start, replies);
    request_sums_rows(context, replies);
    assert(context.ranges.take(context.ranges.len() as int) =~= context.ranges);
    if replies.len() > 0 {
        request_sums_rows(context, replies.drop_last());
        assert(all.last() == state_after(start, replies.drop_last()).resume(replies.last()).1);
    }
}

/// The rows of all ranges, one range after the other.
pub open spec fn rows_of_ranges(
    ranges: Seq<(Seq<u8>, Seq<u8>)>,
    rows_of: spec_fn((Seq<u8>, Seq<u8>)) -> Seq<RowView>,
) -> Seq<RowView>
    decreases ranges.len(),
{
    if ranges.len() == 0 {
        Seq::empty()
    } else {
        rows_of_ranges(ranges.drop_last(), rows_of) + rows_of(ranges.last())
    }
}

/// The rows read since the scanner was opened or moved last.
pub open spec fn rows_of_scan<E>(replies: Seq<ChecksumReplyView<E>>) -> Seq<RowView>
    decreases replies.len(),
{
    if replies.len() == 0 {
        Seq::empty()
    } else {
        match replies.last() {
            ChecksumReplyView::Scanner(_) => Seq::empty(),
            ChecksumReplyView::Row(Ok(Some(row))) => rows_of_scan(replies.drop_last()).push(row),
            _ => rows_of_scan(replies.drop_last()),
        }
    }
}

/// Whether each scan gives the rows of its range, where `rows_of` tells them: the next
/// one that was not given yet, and the end only after the last one.
pub open spec fn scans_give_rows<E>(
    start: ChecksumView,
    replies: Seq<ChecksumReplyView<E>>,
    rows_of: spec_fn((Seq<u8>, Seq<u8>)) -> Seq<RowView>,
) -> bool
    decreases replies.len(),
{
    replies.len() > 0 ==> {
        let front = replies.drop_last();
        let before = state_after(start, front);
        let rows = rows_of(before.ranges[before.begun - 1]);
        let given = rows_of_scan(front).len();
        &&& scans_give_rows(start, front, rows_of)
        &&& match replies.last() {
            ChecksumReplyView::Row(Ok(Some(row))) => given < rows.len() && row
                == rows[given as int],
            ChecksumReplyView::Row(Ok(None)) => given == rows.len(),
            _ => true,
        }
    }
}

/// Whether `rows` are what a request that has come as far as `now` has read, where
/// `scanned` were read in the last scan.
spec fn has_read(
    now: ChecksumView,
    rows: Seq<RowView>,
    scanned: Seq<RowView>,
    rows_of: spec_fn((Seq<u8>, Seq<u8>)) -> Seq<RowView>,
) -> bool {
    let earlier = rows_of_ranges(now.ranges.take(now.begun - 1), rows_of);
    let current = rows_of(now.ranges[now.begun - 1]);
    match now.phase {
        ChecksumPhase::Opening => now.begun > 0 && rows == earlier,
        ChecksumPhase::Reading => {
            &&& now.begun > 0
            &&& now.has_scanner
            &&& scanned.len() <= current.len()
            &&& scanned == current.take(scanned.len() as int)
            &&& rows == earlier + scanned
        },
        ChecksumPhase::Collecting => now.has_scanner && rows == rows_of_ranges(
            now.ranges.take(now.begun),
            rows_of,
        ),
        ChecksumPhase::Idle => true,
    }
}

/// One more range adds its rows.
proof fn lemma_rows_of_next_range(
    ranges: Seq<(Seq<u8>, Seq<u8>)>,
    n: int,
    rows_of: spec_fn((Seq<u8>, Seq<u8>)) -> Seq<RowView>,
)
    requires
        0 < n <= ranges.len(),
    ensures
        rows_of_ranges(ranges.take(n), rows_of) == rows_of_ranges(ranges.take(n - 1), rows_of)
            + rows_of(ranges[n - 1]),
{
    assert(ranges.take(n).drop_last() =~= ranges.take(n - 1));
    assert(ranges.take(n).last() == ranges[n - 1]);
}

/// What a request has read at any time.
proof fn lemma_has_read<E>(
    context: ChecksumView,
    replies: Seq<ChecksumReplyView<E>>,
    rows_of: spec_fn((Seq<u8>, Seq<u8>)) -> Seq<RowView>,
)
    requires
        fresh(context),
        answers(context.handle_request::<E>().0, replies),
        scans_give_rows(context.handle_request::<E>().0, replies, rows_of),
    ensures
        has_read(
            state_after(context.handle_request::<E>().0, replies),
            rows_in(replies),
            rows_of_scan(replies),
            rows_of,
        ),
    decreases replies.len(),
{
    let start = context.handle_request::<E>().0;
    let now = state_after(start, replies);
    request_sums_rows(context, replies);
    if replies.len() == 0 {
        assert(now.ranges.take(0) =~= Seq::empty());
    } else {
        let front = replies.drop_last();
        let before = state_after(start, front);
        let scanned = rows_of_scan(front);
        lemma_has_read(context, front, rows_of);
        request_sums_rows(context, front);
        match replies.last() {
            ChecksumReplyView::Scanner(Ok(_)) => {
                let earlier = rows_of_ranges(now.ranges.take(now.begun - 1), rows_of);
                assert(earlier + Seq::<RowView>::empty() =~= earlier);
                assert(rows_of(now.ranges[now.begun - 1]).take(0) =~= Seq::empty());
            },
            ChecksumReplyView::Row(Ok(Some(row))) => {
                let earlier = rows_of_ranges(now.ranges.take(now.begun - 1), rows_of);
                let current = rows_of(now.ranges[now.begun - 1]);
                assert(scanned.push(row) =~= current.take(scanned.len() as int + 1));
                assert(earlier + scanned.push(row) =~= (earlier + scanned).push(row));
            },
            ChecksumReplyView::Row(Ok(None)) => {
                let current = rows_of(before.ranges[before.begun - 1]);
                assert(current.take(current.len() as int) =~= current);
                lemma_rows_of_next_range(before.ranges, before.begun, rows_of);
            },
            _ => {},
        }
    }
}

/// Where each scan gives the rows of its range, a request that is answered without an
/// error has read the rows of its first range, then those of the second, and so on,
/// and its answer sums up exactly these.
pub proof fn answer_sums_all_ranges<E>(
    context: ChecksumView,
    replies: Seq<ChecksumReplyView<E>>,
    rows_of: spec_fn((Seq<u8>, Seq<u8>)) -> Seq<RowView>,
)
    requires
        fresh(context),
        answers(context.handle_request::<E>().0, replies),
        scans_give_rows(context.handle_request::<E>().0, replies, rows_of),
    ensures
        ({
            let (start, first) = context.handle_request::<E>();
            let all = seq![first] + actions_after(start, replies);
            all.last() matches ChecksumActionView::Finish(Ok(response)) ==> {
                &&& rows_in(replies) == rows_of_ranges(context.ranges, rows_of)
                &&& response.sums_up(rows_of_ranges(context.ranges, rows_of))
            }
        }),
{
    let (start, first) = context.handle_request::<E>();
    let all = seq![first] + actions_after(start, replies);
    answer_is_complete(context, replies);
    if replies.len() > 0 {
        let front = replies.drop_last();
        let before = state_after(start, front);
        lemma_has_read(context, front, rows_of);
        request_sums_rows(context, front);
        assert(all.last() == before.resume(replies.last()).1);
        assert(before.ranges.take(before.ranges.len() as int) =~= before.ranges);
    }
}

/// One more row brings its own check into a checksum, and its key and value into the
/// number of bytes.
pub proof fn row_adds_its_check(rows: Seq<RowView>, k: Seq<u8>, v: Seq<u8>)
    ensures
        rows_checksum(Seq::empty()) == 0,
        rows_bytes(Seq::empty()) == 0,
        rows_checksum(rows.push((k, v))) == rows_checksum(rows) ^ crc64_ecma(k + v),
        rows_bytes(rows.push((k, v))) == rows_bytes(rows) + k.len() + v.len(),
{
    assert(rows.push((k, v)).drop_last() =~= rows);
    assert(rows.push((k, v)).last() == (k, v));
}

/// A request is refused exactly if it asks for another algorithm than the exclusive or of
/// checks, and the answer names that algorithm. Nothing is read for it.
pub proof fn unknown_algorithm_is_refused<E>(context: ChecksumView)
    ensures
        context.algorithm != ChecksumAlgorithm::Crc64Xor ==> context.handle_request::<E>() == (
            context,
            ChecksumActionView::<E>::Finish(
                Err(ChecksumError::UnknownAlgorithm(context.algorithm)),
            ),
        ),
        context.algorithm == ChecksumAlgorithm::Crc64Xor ==> !(
        context.handle_request::<E>().1 matches ChecksumActionView::Finish(Err(_))),
{
}

/// The error in a reply, if it holds one.
pub open spec fn error_in<E>(reply: ChecksumReplyView<E>) -> Option<E> {
    match reply {
        ChecksumReplyView::Scanner(Err(e)) => Some(e),
        ChecksumReplyView::Row(Err(e)) => Some(e),
        _ => None,
    }
}

/// An error of the scanner is the answer to the request, and nothing else makes it fail
/// once it has begun. It is answered well only when every range has been begun, and with
/// what has been read so far.
pub proof fn scanner_error_is_the_answer<E>(context: ChecksumView, reply: ChecksumReplyView<E>)
    requires
        context.expects(reply),
    ensures
        match error_in(reply) {
            Some(e) => context.resume(reply).1 == ChecksumActionView::<E>::Finish(
                Err(ChecksumError::Scan(e)),
            ),
            None => match context.resume(reply).1 {
                ChecksumActionView::Finish(Ok(tally)) => {
                    &&& tally == context.resume(reply).0.tally
                    &&& context.begun >= context.ranges.len()
                },
                ChecksumActionView::Finish(Err(_)) => false,
                _ => true,
            },
        },
{
}

/// The first range is read with a new scanner, and every later one by moving the scanner
/// that is open. When a range is at its end, the statistics of the scanner are collected
/// before anything else; otherwise it is read on.
pub proof fn scanner_is_used_again<E>(context: ChecksumView, replies: Seq<ChecksumReplyView<E>>)
    requires
        fresh(context),
        answers(context.handle_request::<E>().0, replies),
        replies.len() > 0,
    ensures
        ({
            let (start, first) = context.handle_request::<E>();
            let action = actions_after(start, replies).last();
            &&& first is NewScanner || first is Finish
            &&& !(action is NewScanner)
            &&& action is ResetScanner ==> replies.last() is Collected
            &&& action is CollectStatistics <==> replies.last()
                == ChecksumReplyView::<E>::Row(Ok(None))
            &&& action is NextRow <==> {
                ||| replies.last() matches ChecksumReplyView::Scanner(Ok(_))
                ||| replies.last() matches ChecksumReplyView::Row(Ok(Some(_)))
            }
        }),
{
    lemma_scanner_is_open(context, replies.drop_last());
}

/// From the first row of a range on the scanner is open, until it is moved.
proof fn lemma_scanner_is_open<E>(context: ChecksumView, replies: Seq<ChecksumReplyView<E>>)
    requires
        fresh(context),
        answers(context.handle_request::<E>().0, replies),
    ensures
        ({
            let now = state_after(context.handle_request::<E>().0, replies);
            now.phase == ChecksumPhase::Reading || now.phase == ChecksumPhase::Collecting
                ==> now.has_scanner
        }),
    decreases replies.len(),
{
    if replies.len() > 0 {
        lemma_scanner_is_open(context, replies.drop_last());
    }
}

/// A request never forgets what it was made for.
pub proof fn request_keeps_its_options<E>(context: ChecksumView, replies: Seq<ChecksumReplyView<E>>)
    ensures
        state_after(context.handle_request::<E>().0, replies).store == context.store,
        state_after(context.handle_request::<E>().0, replies).algorithm == context.algorithm,
        state_after(context.handle_request::<E>().0, replies).ranges == context.ranges,
    decreases replies.len(),
{
    if replies.len() > 0 {
        request_keeps_its_options(context, replies.drop_last());
    }
}

/// Whether a reply is of the kind that answers an action, and can be counted.
pub open spec fn fits<E>(
    action: ChecksumActionView<E>,
    tally: ChecksumResponse,
    reply: ChecksumReplyView<E>,
) -> bool {
    match action {
        ChecksumActionView::NewScanner(_) => reply is Scanner,
        ChecksumActionView::ResetScanner(_) => reply is Scanner,
        ChecksumActionView::NextRow => reply is Row && (reply matches ChecksumReplyView::Row(
            Ok(Some(row)),
        ) ==> {
            &&& tally.total_kvs + 1 <= u64::MAX
            &&& tally.total_bytes + row.0.len() + row.1.len() <= u64::MAX
        }),
        ChecksumActionView::CollectStatistics => reply is Collected,
        ChecksumActionView::Finish(_) => false,
    }
}

/// Whatever comes of an action can be told to the request, as long as it can be counted.
pub proof fn every_answer_is_expected<E>(
    context: ChecksumView,
    reply: ChecksumReplyView<E>,
    next: ChecksumReplyView<E>,
)
    requires
        context.expects(reply),
    ensures
        ({
            let (now, action) = context.resume(reply);
            now.expects(next) <==> fits(action, now.tally, next)
        }),
{
}

/// A request is read as of its own time, in the isolation level of its context, and leaves
/// the cache alone exactly if its context says so. It has not begun and is over all its
/// ranges, and can be handled if its algorithm is known.
pub proof fn request_is_read_as_it_says(
    req: ChecksumRequest,
    ranges: Seq<(Seq<u8>, Seq<u8>)>,
    req_ctx: ReqContext,
)
    ensures
        ({
            let context = ChecksumView::of_request(req, ranges, req_ctx);
            &&& context.store.start_ts == req.start_ts
            &&& context.store.isolation_level == req_ctx.isolation_level
            &&& context.store.fill_cache <==> !req_ctx.not_fill_cache
            &&& context.algorithm == req.algorithm
            &&& context.ranges == ranges
            &&& fresh(context) <==> req.algorithm == ChecksumAlgorithm::Crc64Xor
        }),
{
}

} // verus!
