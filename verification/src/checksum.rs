//! Checksums of key-value rows: one request at a time, range by range.

use crc::crc64::{Digest, Hasher64};
use vstd::prelude::*;

use crate::keys::copy_bytes;
use crate::snapshot::{IsolationLevel, StoreOptions};

verus! {

/// A key and its value.
pub type RowView = (Seq<u8>, Seq<u8>);

/// The ECMA polynomial, with the bits in reverse order.
pub const ECMA_POLYNOMIAL: u64 = 0xc96c_5795_d787_0f42;

/// The remainder that is left once `n` more bits have been divided out, the lowest
/// bit first.
pub open spec fn divided(register: u64, n: nat) -> u64
    decreases n,
{
    if n == 0 {
        register
    } else {
        let r = divided(register, (n - 1) as nat);
        if r & 1 == 1 {
            (r >> 1) ^ ECMA_POLYNOMIAL
        } else {
            r >> 1
        }
    }
}

/// The remainder of a byte string, with all bits set to begin with.
pub open spec fn crc64_register(bytes: Seq<u8>) -> u64
    decreases bytes.len(),
{
    if bytes.len() == 0 {
        u64::MAX
    } else {
        divided(crc64_register(bytes.drop_last()) ^ (bytes.last() as u64), 8)
    }
}

/// The 64-bit cyclic redundancy check of a byte string, over the ECMA polynomial: the
/// complement of the remainder.
pub open spec fn crc64_ecma(bytes: Seq<u8>) -> u64 {
    !crc64_register(bytes)
}

/// Calls `crc::crc64::Digest::new` with the ECMA polynomial, `Hasher64::write` on
/// the key and then on the value, and `Hasher64::sum64`. Trusted: the sum is the
/// check of all bytes written, and does not depend on how they were divided between
/// the two writes.
#[verifier::external_body]
fn crc64_of_row(k: &[u8], v: &[u8]) -> (sum: u64)
    ensures
        sum == crc64_ecma(k@ + v@),
{
    let mut digest = Digest::new(crc::crc64::ECMA);
    digest.write(k);
    digest.write(v);
    digest.sum64()
}

/// The exclusive or of the checks of all rows.
pub open spec fn rows_checksum(rows: Seq<RowView>) -> u64
    decreases rows.len(),
{
    if rows.len() == 0 {
        0
    } else {
        rows_checksum(rows.drop_last()) ^ crc64_ecma(rows.last().0 + rows.last().1)
    }
}

/// The number of bytes in all keys and values.
pub open spec fn rows_bytes(rows: Seq<RowView>) -> nat
    decreases rows.len(),
{
    if rows.len() == 0 {
        0
    } else {
        rows_bytes(rows.drop_last()) + rows.last().0.len() + rows.last().1.len()
    }
}

/// Adds a row, whose check is `crc`, to a checksum.
pub fn xor_checksum(checksum: u64, crc: u64) -> (sum: u64)
    ensures
        sum == checksum ^ crc,
{
    checksum ^ crc
}

/// Adds one row to a checksum.
pub fn checksum_crc64_xor(checksum: u64, k: &[u8], v: &[u8]) -> (sum: u64)
    ensures
        sum == checksum ^ crc64_ecma(k@ + v@),
{
    xor_checksum(checksum, crc64_of_row(k, v))
}

/// The answer to a checksum request.
#[derive(Clone, Copy, Debug, PartialEq, Eq)]
pub struct ChecksumResponse {
    pub checksum: u64,
    pub total_kvs: u64,
    pub total_bytes: u64,
}

impl ChecksumResponse {
    /// Whether the response sums up `rows`.
    pub open spec fn sums_up(self, rows: Seq<RowView>) -> bool {
        &&& self.checksum == rows_checksum(rows)
        &&& self.total_kvs == rows.len()
        &&& self.total_bytes == rows_bytes(rows)
    }

    /// Whether one more row of `bytes` bytes can be counted.
    pub open spec fn has_room_for(self, bytes: nat) -> bool {
        &&& self.total_kvs < u64::MAX
        &&& self.total_bytes + bytes <= u64::MAX
    }

    /// The response with one more row of `bytes` bytes, which brings the checksum to
    /// `checksum`.
    pub open spec fn plus(self, checksum: u64, bytes: nat) -> ChecksumResponse {
        ChecksumResponse {
            checksum,
            total_kvs: (self.total_kvs + 1) as u64,
            total_bytes: (self.total_bytes + bytes) as u64,
        }
    }

    /// Whether one more row of `bytes` bytes can be counted.
    pub fn can_add(&self, bytes: u64) -> (can: bool)
        ensures
            can == self.has_room_for(bytes as nat),
    {
        self.total_kvs < u64::MAX && bytes <= u64::MAX - self.total_bytes
    }

    /// Counts one more row of `bytes` bytes, which brings the checksum to `checksum`.
    pub fn add_row(&mut self, checksum: u64, bytes: u64)
        requires
            old(self).has_room_for(bytes as nat),
        ensures
            *final(self) == old(self).plus(checksum, bytes as nat),
    {
        self.checksum = checksum;
        self.total_kvs = self.total_kvs + 1;
        self.total_bytes = self.total_bytes + bytes;
    }
}

/// How rows are summed.
#[derive(Clone, Copy, Debug, PartialEq, Eq, Structural)]
pub enum ChecksumAlgorithm {
    Crc64Xor,
    /// An algorithm this library does not know, by its number.
    Unknown(i32),
}

/// A request for the checksum of some key ranges.
#[derive(Clone, Copy, Debug, PartialEq, Eq)]
pub struct ChecksumRequest {
    pub start_ts: u64,
    pub algorithm: ChecksumAlgorithm,
}

/// The part of a request's context that a checksum depends on.
#[derive(Clone, Copy, Debug, PartialEq, Eq)]
pub struct ReqContext {
    pub isolation_level: IsolationLevel,
    pub not_fill_cache: bool,
}

/// A range of keys to scan.
#[derive(Debug, PartialEq, Eq)]
pub struct KeyRange {
    pub start: Vec<u8>,
    pub end: Vec<u8>,
}

impl View for KeyRange {
    type V = (Seq<u8>, Seq<u8>);

    open spec fn view(&self) -> (Seq<u8>, Seq<u8>) {
        (self.start@, self.end@)
    }
}

/// The models of a list of key ranges.
pub open spec fn key_range_views(ranges: Seq<KeyRange>) -> Seq<(Seq<u8>, Seq<u8>)> {
    ranges.map_values(|range: KeyRange| range@)
}

/// Why a checksum request failed.
#[derive(Debug, PartialEq, Eq)]
pub enum ChecksumError<E> {
    UnknownAlgorithm(ChecksumAlgorithm),
    Scan(E),
}

/// What the caller is to do next for a checksum request.
#[derive(Debug, PartialEq, Eq)]
pub enum ChecksumAction<E> {
    /// Open a scanner over the range.
    NewScanner(KeyRange),
    /// Move the open scanner to the range.
    ResetScanner(KeyRange),
    /// Read the next row from the scanner.
    NextRow,
    /// Collect the statistics of the scanner, which has reached its end.
    CollectStatistics,
    /// Answer the request.
    Finish(Result<ChecksumResponse, ChecksumError<E>>),
}

/// What came of an action.
#[derive(Debug, PartialEq, Eq)]
pub enum ChecksumReply<E> {
    /// The scanner was opened or moved.
    Scanner(Result<(), E>),
    /// The next row, or nothing at the end of the range.
    Row(Result<Option<(Vec<u8>, Vec<u8>)>, E>),
    /// The statistics were collected.
    Collected,
}

/// The model of a [`ChecksumAction`].
pub enum ChecksumActionView<E> {
    NewScanner((Seq<u8>, Seq<u8>)),
    ResetScanner((Seq<u8>, Seq<u8>)),
    NextRow,
    CollectStatistics,
    Finish(Result<ChecksumResponse, ChecksumError<E>>),
}

impl<E> View for ChecksumAction<E> {
    type V = ChecksumActionView<E>;

    open spec fn view(&self) -> ChecksumActionView<E> {
        match *self {
            ChecksumAction::NewScanner(range) => ChecksumActionView::NewScanner(range@),
            ChecksumAction::ResetScanner(range) => ChecksumActionView::ResetScanner(range@),
            ChecksumAction::NextRow => ChecksumActionView::NextRow,
            ChecksumAction::CollectStatistics => ChecksumActionView::CollectStatistics,
            ChecksumAction::Finish(result) => ChecksumActionView::Finish(result),
        }
    }
}

/// The model of a [`ChecksumReply`].
pub enum ChecksumReplyView<E> {
    Scanner(Result<(), E>),
    Row(Result<Option<RowView>, E>),
    Collected,
}

impl<E> View for ChecksumReply<E> {
    type V = ChecksumReplyView<E>;

    open spec fn view(&self) -> ChecksumReplyView<E> {
        match *self {
            ChecksumReply::Scanner(result) => ChecksumReplyView::Scanner(result),
            ChecksumReply::Row(Ok(Some(row))) => ChecksumReplyView::Row(
                Ok(Some((row.0@, row.1@))),
            ),
            ChecksumReply::Row(Ok(None)) => ChecksumReplyView::Row(Ok(None)),
            ChecksumReply::Row(Err(e)) => ChecksumReplyView::Row(Err(e)),
            ChecksumReply::Collected => ChecksumReplyView::Collected,
        }
    }
}

/// What a checksum request waits for.
#[derive(Clone, Copy, Debug, PartialEq, Eq, Structural)]
pub enum ChecksumPhase {
    /// No request is being handled.
    Idle,
    Opening,
    Reading,
    Collecting,
}

/// The model of a [`ChecksumContext`].
#[verifier::ext_equal]
pub struct ChecksumView {
    pub algorithm: ChecksumAlgorithm,
    pub store: StoreOptions,
    pub ranges: Seq<(Seq<u8>, Seq<u8>)>,
    /// How many of the ranges have been begun.
    pub begun: int,
    pub has_scanner: bool,
    pub phase: ChecksumPhase,
    pub tally: ChecksumResponse,
}

impl ChecksumView {
    /// A request over `ranges` that has not begun.
    pub open spec fn of_request(
        req: ChecksumRequest,
        ranges: Seq<(Seq<u8>, Seq<u8>)>,
        req_ctx: ReqContext,
    ) -> ChecksumView {
        ChecksumView {
            algorithm: req.algorithm,
            store: StoreOptions {
                start_ts: req.start_ts,
                isolation_level: req_ctx.isolation_level,
                fill_cache: !req_ctx.not_fill_cache,
            },
            ranges,
            begun: 0,
            has_scanner: false,
            phase: ChecksumPhase::Idle,
            tally: ChecksumResponse { checksum: 0, total_kvs: 0, total_bytes: 0 },
        }
    }

    /// Goes on with the next range, or answers if there is none.
    pub open spec fn next_range<E>(self) -> (ChecksumView, ChecksumActionView<E>) {
        if self.begun < self.ranges.len() {
            let range = self.ranges[self.begun];
            (
                ChecksumView {
                    begun: self.begun + 1,
                    has_scanner: false,
                    phase: ChecksumPhase::Opening,
                    ..self
                },
                if self.has_scanner {
                    ChecksumActionView::ResetScanner(range)
                } else {
                    ChecksumActionView::NewScanner(range)
                },
            )
        } else {
            (
                ChecksumView { phase: ChecksumPhase::Idle, ..self },
                ChecksumActionView::Finish(Ok(self.tally)),
            )
        }
    }

    /// Goes on with the next row of the open scanner, or else with the next range.
    pub open spec fn next_row<E>(self) -> (ChecksumView, ChecksumActionView<E>) {
        if self.has_scanner {
            (
                ChecksumView { phase: ChecksumPhase::Reading, ..self },
                ChecksumActionView::NextRow,
            )
        } else {
            self.next_range()
        }
    }

    /// Begins to handle the request.
    pub open spec fn handle_request<E>(self) -> (ChecksumView, ChecksumActionView<E>) {
        if self.algorithm == ChecksumAlgorithm::Crc64Xor {
            ChecksumView {
                tally: ChecksumResponse { checksum: 0, total_kvs: 0, total_bytes: 0 },
                ..self
            }.next_row()
        } else {
            (self, ChecksumActionView::Finish(Err(ChecksumError::UnknownAlgorithm(self.algorithm))))
        }
    }

    /// Gives up with an error of the scanner.
    pub open spec fn fail<E>(self, e: E) -> (ChecksumView, ChecksumActionView<E>) {
        (
            ChecksumView { phase: ChecksumPhase::Idle, ..self },
            ChecksumActionView::Finish(Err(ChecksumError::Scan(e))),
        )
    }

    /// Whether a reply answers the action that was asked for last.
    pub open spec fn expects<E>(self, reply: ChecksumReplyView<E>) -> bool {
        match reply {
            ChecksumReplyView::Scanner(_) => self.phase == ChecksumPhase::Opening,
            ChecksumReplyView::Row(Ok(Some(row))) => self.phase == ChecksumPhase::Reading
                && self.tally.has_room_for((row.0.len() + row.1.len()) as nat),
            ChecksumReplyView::Row(_) => self.phase == ChecksumPhase::Reading,
            ChecksumReplyView::Collected => self.phase == ChecksumPhase::Collecting,
        }
    }

    /// What a reply leads to.
    pub open spec fn resume<E>(self, reply: ChecksumReplyView<E>) -> (
        ChecksumView,
        ChecksumActionView<E>,
    ) {
        match reply {
            ChecksumReplyView::Scanner(Ok(_)) => ChecksumView {
                has_scanner: true,
                ..self
            }.next_row(),
            ChecksumReplyView::Scanner(Err(e)) => self.fail(e),
            ChecksumReplyView::Row(Ok(Some(row))) => ChecksumView {
                tally: self.tally.plus(
                    self.tally.checksum ^ crc64_ecma(row.0 + row.1),
                    (row.0.len() + row.1.len()) as nat,
                ),
                ..self
            }.next_row(),
            ChecksumReplyView::Row(Ok(None)) => (
                ChecksumView { phase: ChecksumPhase::Collecting, ..self },
                ChecksumActionView::CollectStatistics,
            ),
            ChecksumReplyView::Row(Err(e)) => self.fail(e),
            ChecksumReplyView::Collected => self.next_range(),
        }
    }
}

/// `ChecksumContext` is used to handle `ChecksumRequest`
pub struct ChecksumContext {
    algorithm: ChecksumAlgorithm,
    store: StoreOptions,
    ranges: Vec<KeyRange>,
    begun: usize,
    has_scanner: bool,
    phase: ChecksumPhase,
    tally: ChecksumResponse,
}

impl View for ChecksumContext {
    type V = ChecksumView;

    closed spec fn view(&self) -> ChecksumView {
        ChecksumView {
            algorithm: self.algorithm,
            store: self.store,
            ranges: key_range_views(self.ranges@),
            begun: self.begun as int,
            has_scanner: self.has_scanner,
            phase: self.phase,
            tally: self.tally,
        }
    }
}

impl ChecksumContext {
    /// Prepares a request over `ranges`.
    pub fn new<E>(
        req: ChecksumRequest,
        ranges: Vec<KeyRange>,
        req_ctx: &ReqContext,
    ) -> (context: Result<ChecksumContext, ChecksumError<E>>)
        ensures
            context is Ok,
            context->Ok_0@ == (ChecksumView {
                algorithm: req.algorithm,
                store: StoreOptions {
                    start_ts: req.start_ts,
                    isolation_level: req_ctx.isolation_level,
                    fill_cache: !req_ctx.not_fill_cache,
                },
                ranges: key_range_views(ranges@),
                begun: 0,
                has_scanner: false,
                phase: ChecksumPhase::Idle,
                tally: ChecksumResponse { checksum: 0, total_kvs: 0, total_bytes: 0 },
            }),
            context->Ok_0@ == ChecksumView::of_request(req, key_range_views(ranges@), *req_ctx),
    {
        Ok(
            ChecksumContext {
                algorithm: req.algorithm,
                store: StoreOptions {
                    start_ts: req.start_ts,
                    isolation_level: req_ctx.isolation_level,
                    fill_cache: !req_ctx.not_fill_cache,
                },
                ranges,
                begun: 0,
                has_scanner: false,
                phase: ChecksumPhase::Idle,
                tally: ChecksumResponse { checksum: 0, total_kvs: 0, total_bytes: 0 },
            },
        )
    }

    /// How the snapshot is to be read.
    pub fn store_options(&self) -> (options: StoreOptions)
        ensures
            options == self@.store,
    {
        self.store
    }

    /// What the rows read so far add up to.
    pub fn tally(&self) -> (tally: ChecksumResponse)
        ensures
            tally == self@.tally,
    {
        self.tally
    }

    /// Begins to handle the request, and says what to do first.
    pub fn handle_request<E>(&mut self) -> (action: ChecksumAction<E>)
        requires
            old(self)@.phase == ChecksumPhase::Idle,
        ensures
            (final(self)@, action@) == old(self)@.handle_request::<E>(),
    {
        if self.algorithm != ChecksumAlgorithm::Crc64Xor {
            return ChecksumAction::Finish(
                Err(ChecksumError::UnknownAlgorithm(self.algorithm)),
            );
        }
        self.tally = ChecksumResponse { checksum: 0, total_kvs: 0, total_bytes: 0 };
        self.next_row()
    }

    /// Says how to get to the next row.
    fn next_row<E>(&mut self) -> (action: ChecksumAction<E>)
        ensures
            (final(self)@, action@) == old(self)@.next_row::<E>(),
    {
        if self.has_scanner {
            self.phase = ChecksumPhase::Reading;
            return ChecksumAction::NextRow;
        }
        self.next_range()
    }

    /// Says how to get to the next range.
    fn next_range<E>(&mut self) -> (action: ChecksumAction<E>)
        ensures
            (final(self)@, action@) == old(self)@.next_range::<E>(),
    {
        if self.begun < self.ranges.len() {
            let range = KeyRange {
                start: copy_bytes(self.ranges[self.begun].start.as_slice()),
                end: copy_bytes(self.ranges[self.begun].end.as_slice()),
            };
            let reset = self.has_scanner;
            self.begun = self.begun + 1;
            self.has_scanner = false;
            self.phase = ChecksumPhase::Opening;
            if reset {
                ChecksumAction::ResetScanner(range)
            } else {
                ChecksumAction::NewScanner(range)
            }
        } else {
            self.phase = ChecksumPhase::Idle;
            ChecksumAction::Finish(Ok(self.tally))
        }
    }

    /// Takes what came of the last action, and says what to do next.
    pub fn resume<E>(&mut self, reply: ChecksumReply<E>) -> (action: ChecksumAction<E>)
        requires
            old(self)@.expects(reply@),
        ensures
            (final(self)@, action@) == old(self)@.resume(reply@),
    {
        match reply {
            ChecksumReply::Scanner(Ok(_)) => {
                self.has_scanner = true;
                self.next_row()
            },
            ChecksumReply::Row(Ok(Some((k, v)))) => {
                let checksum = checksum_crc64_xor(
                    self.tally.checksum,
                    k.as_slice(),
                    v.as_slice(),
                );
                self.tally.add_row(checksum, k.len() as u64 + v.len() as u64);
                self.next_row()
            },
            ChecksumReply::Row(Ok(None)) => {
                self.phase = ChecksumPhase::Collecting;
                ChecksumAction::CollectStatistics
            },
            ChecksumReply::Scanner(Err(e)) | ChecksumReply::Row(Err(e)) => {
                self.phase = ChecksumPhase::Idle;
                ChecksumAction::Finish(Err(ChecksumError::Scan(e)))
            },
            ChecksumReply::Collected => self.next_range(),
        }
    }
}

} // verus!
