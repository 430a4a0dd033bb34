//! Backup tasks: what is asked for, and whether it can be begun.

use std::sync::atomic::{AtomicBool, Ordering};
use std::sync::Arc;

use vstd::prelude::*;
use vstd::string::StringExecFns;

use crate::file_name::{decimal, hex_encode_upper, hex_upper, push_decimal};

verus! {

/// A request for a backup. `B` says where the files go.
#[derive(Debug)]
pub struct BackupRequest<B> {
    pub start_key: Vec<u8>,
    pub end_key: Vec<u8>,
    pub start_version: u64,
    pub end_version: u64,
    pub storage_backend: B,
    pub rate_limit: u64,
    pub concurrency: u32,
    pub is_raw_kv: bool,
    pub cf: String,
}

/// Why a backup cannot be begun.
#[derive(Debug, PartialEq, Eq)]
pub enum Error<E> {
    /// There is no such column family.
    InvalidCf { cf: String },
    /// The storage backend cannot be used.
    Storage(E),
}

/// What every worker of a task needs to know.
#[derive(Debug)]
pub struct Request<B> {
    pub start_key: Vec<u8>,
    pub end_key: Vec<u8>,
    pub start_ts: u64,
    pub end_ts: u64,
    /// Bytes per second, or no limit.
    pub speed_limit: Option<u64>,
    pub backend: B,
    pub cancel: Arc<AtomicBool>,
    pub is_raw_kv: bool,
    pub cf: String,
}

/// Backup Task.
#[derive(Debug)]
pub struct Task<B> {
    pub request: Request<B>,
    pub concurrency: u32,
}

/// The parts of a task that identify it in a log.
#[derive(Debug, PartialEq, Eq)]
pub struct TaskLabel {
    pub start_ts: u64,
    pub end_ts: u64,
    /// In upper case hexadecimal digits.
    pub start_key: String,
    /// In upper case hexadecimal digits.
    pub end_key: String,
    pub is_raw_kv: bool,
    pub cf: String,
}

/// A text in quotation marks.
pub open spec fn quoted(text: Seq<char>) -> Seq<char> {
    "\""@ + text + "\""@
}

/// A truth value in words.
pub open spec fn bool_text(b: bool) -> Seq<char> {
    if b {
        "true"@
    } else {
        "false"@
    }
}

impl TaskLabel {
    /// How the label reads in a log: each part behind its name, in this order. The
    /// name of a column family has no characters to be escaped.
    pub open spec fn spec_text(self) -> Seq<char> {
        "BackupTask { start_ts: "@ + decimal(self.start_ts as nat) + ", end_ts: "@ + decimal(
            self.end_ts as nat,
        ) + ", start_key: "@ + quoted(self.start_key@) + ", end_key: "@ + quoted(self.end_key@)
            + ", is_raw_kv: "@ + bool_text(self.is_raw_kv) + ", cf: "@ + quoted(self.cf@) + " }"@
    }

    /// How the label reads in a log.
    pub fn to_text(&self) -> (text: String)
        ensures
            text@ == self.spec_text(),
    {
        let mut text = String::new();
        text.append("BackupTask { start_ts: ");
        push_decimal(&mut text, self.start_ts);
        text.append(", end_ts: ");
        push_decimal(&mut text, self.end_ts);
        text.append(", start_key: ");
        push_quoted(&mut text, self.start_key.as_str());
        text.append(", end_key: ");
        push_quoted(&mut text, self.end_key.as_str());
        text.append(", is_raw_kv: ");
        text.append(
            if self.is_raw_kv {
                "true"
            } else {
                "false"
            },
        );
        text.append(", cf: ");
        push_quoted(&mut text, self.cf.as_str());
        text.append(" }");
        assert(text@ =~= self.spec_text());
        text
    }
}

/// Appends a text in quotation marks.
fn push_quoted(text: &mut String, part: &str)
    ensures
        final(text)@ == old(text)@ + quoted(part@),
{
    text.append("\"");
    text.append(part);
    text.append("\"");
    assert(text@ =~= old(text)@ + quoted(part@));
}

/// The limit that a rate stands for: zero is none.
pub open spec fn limit_of_rate(rate: u64) -> Option<u64> {
    if rate > 0 {
        Some(rate)
    } else {
        None
    }
}

impl<B> Task<B> {
    /// Create a backup task based on the given backup request.
    ///
    /// `cf` is the column family that the request names, if there is one of that
    /// name, and `storage_error` what went wrong when the storage backend was tried.
    /// Also returns the flag that cancels the task, which is made unset.
    pub fn new<E>(
        req: BackupRequest<B>,
        cf: Option<String>,
        storage_error: Option<E>,
    ) -> (task: Result<(Task<B>, Arc<AtomicBool>), Error<E>>)
        ensures
            cf is None ==> (task matches Err(Error::InvalidCf { cf: name }) && name@ == req.cf@),
            cf is Some && storage_error is Some ==> (task matches Err(Error::Storage(e)) && e
                == storage_error.unwrap()),
            cf is Some && storage_error is None ==> {
                &&& task is Ok
                &&& ({
                    let (task, cancel) = task->Ok_0;
                    &&& task.request.start_key@ == req.start_key@
                    &&& task.request.end_key@ == req.end_key@
                    &&& task.request.start_ts == req.start_version
                    &&& task.request.end_ts == req.end_version
                    &&& task.request.speed_limit == limit_of_rate(req.rate_limit)
                    &&& task.request.backend == req.storage_backend
                    &&& task.request.cancel == cancel
                    &&& call_ensures(AtomicBool::new, (false,), *cancel)
                    &&& task.request.is_raw_kv == req.is_raw_kv
                    &&& task.request.cf@ == cf.unwrap()@
                    &&& task.concurrency == req.concurrency
                })
            },
    {
        let cancel: Arc<AtomicBool> = Arc::new(AtomicBool::new(false));
        let speed_limit: Option<u64> = if req.rate_limit > 0 {
            Some(req.rate_limit)
        } else {
            None
        };
        let cf = match cf {
            Some(cf) => cf,
            None => {
                return Err(Error::InvalidCf { cf: req.cf });
            },
        };
        if let Some(e) = storage_error {
            return Err(Error::Storage(e));
        }
        let task = Task {
            request: Request {
                start_key: req.start_key,
                end_key: req.end_key,
                start_ts: req.start_version,
                end_ts: req.end_version,
                speed_limit,
                backend: req.storage_backend,
                cancel: cancel.clone(),
                is_raw_kv: req.is_raw_kv,
                cf,
            },
            concurrency: req.concurrency,
        };
        Ok((task, cancel))
    }

    /// Whether a sequentially consistent load of the task's flag can return
    /// `canceled`. Other threads set the flag, so both answers may be possible.
    pub open spec fn may_load(self, canceled: bool) -> bool {
        call_ensures(AtomicBool::load, (&*self.request.cancel, Ordering::SeqCst), canceled)
    }

    /// Check whether the task is canceled.
    ///
    /// The flag is shared with other threads, so the answer is what it held at some
    /// moment during the call.
    pub fn has_canceled(&self) -> (canceled: bool)
        ensures
            self.may_load(canceled),
    {
        self.request.cancel.load(Ordering::SeqCst)
    }

    /// The parts of the task that identify it in a log.
    pub fn label(&self) -> (label: TaskLabel)
        ensures
            label.start_ts == self.request.start_ts,
            label.end_ts == self.request.end_ts,
            label.start_key@ == hex_upper(self.request.start_key@),
            label.end_key@ == hex_upper(self.request.end_key@),
            label.is_raw_kv == self.request.is_raw_kv,
            label.cf@ == self.request.cf@,
    {
        TaskLabel {
            start_ts: self.request.start_ts,
            end_ts: self.request.end_ts,
            start_key: hex_encode_upper(self.request.start_key.as_slice()),
            end_key: hex_encode_upper(self.request.end_key.as_slice()),
            is_raw_kv: self.request.is_raw_kv,
            cf: self.request.cf.clone(),
        }
    }

    /// How the task reads in a log.
    pub fn to_text(&self) -> (text: String)
        ensures
            text@ == "BackupTask { start_ts: "@ + decimal(self.request.start_ts as nat)
                + ", end_ts: "@ + decimal(self.request.end_ts as nat) + ", start_key: "@ + quoted(
                hex_upper(self.request.start_key@),
            ) + ", end_key: "@ + quoted(hex_upper(self.request.end_key@)) + ", is_raw_kv: "@
                + bool_text(self.request.is_raw_kv) + ", cf: "@ + quoted(self.request.cf@) + " }"@,
    {
        self.label().to_text()
    }
}

/// A rate is a limit of so many bytes per second, unless it is zero.
pub proof fn rate_is_limit_unless_zero(rate: u64)
    ensures
        limit_of_rate(rate) is None <==> rate == 0,
        limit_of_rate(rate) matches Some(limit) ==> limit == rate,
{
}

/// A text in quotation marks is that text between two quotation marks.
pub proof fn quoted_is_between_marks(text: Seq<char>)
    ensures
        quoted(text).len() == text.len() + 2,
        quoted(text)[0] == '"',
        quoted(text).last() == '"',
        quoted(text).subrange(1, text.len() as int + 1) == text,
{
    reveal_strlit("\"");
    assert(quoted(text).subrange(1, text.len() as int + 1) =~= text);
}

/// A truth value is written as its word.
pub proof fn truth_is_written_as_its_word()
    ensures
        bool_text(true) == seq!['t', 'r', 'u', 'e'],
        bool_text(false) == seq!['f', 'a', 'l', 's', 'e'],
{
    reveal_strlit("true");
    reveal_strlit("false");
    assert(bool_text(true) =~= seq!['t', 'r', 'u', 'e']);
    assert(bool_text(false) =~= seq!['f', 'a', 'l', 's', 'e']);
}

} // verus!
