//! The in-memory log of a running user script: a byte buffer capped at
//! `MAX_LOG_BYTES` that evicts its oldest lines first, and the decisions taken
//! around the script's run.

use std::borrow::Cow;
use std::collections::VecDeque;

use vstd::prelude::*;
use vstd::slice::{slice_subrange, slice_to_vec};
use vstd::string::to_string_from_display_ensures;
use vstd::utf8::encode_utf8;

use crate::secrets::{mask_all, secret_values, Secrets};
use crate::status_update::time_millis;
use crate::text::prefixed;

verus! {

broadcast use vstd::seq_lib::group_seq_properties;

/// The most bytes the log buffer holds.
pub const MAX_LOG_BYTES: usize = 10 * 1024 * 1024;

/// The ASCII decimal digits of `n`, most significant first.
pub open spec fn decimal(n: nat) -> Seq<u8>
    decreases n,
{
    if n < 10 {
        seq![(48 + n) as u8]
    } else {
        decimal(n / 10).push((48 + n % 10) as u8)
    }
}

/// One log line as stored: `[<millis>] [<stream>] <line>` and a newline, UTF-8 encoded.
pub open spec fn entry_bytes(millis: nat, stream: Seq<char>, line: Seq<char>) -> Seq<u8> {
    seq![91u8] + decimal(millis) + seq![93u8, 32u8, 91u8] + encode_utf8(stream) + seq![93u8, 32u8]
        + encode_utf8(line) + seq![10u8]
}

/// The entries left after dropping oldest entries, one at a time, until
/// `incoming` more bytes fit under the cap or nothing is left.
pub open spec fn evict_for(entries: Seq<Seq<u8>>, incoming: nat) -> Seq<Seq<u8>>
    decreases entries.len(),
{
    if entries.len() == 0 || entries.flatten().len() + incoming <= MAX_LOG_BYTES {
        entries
    } else {
        evict_for(entries.drop_first(), incoming)
    }
}

/// How many oldest entries `evict_for` drops.
pub open spec fn evicted_count(entries: Seq<Seq<u8>>, incoming: nat) -> nat
    decreases entries.len(),
{
    if entries.len() == 0 || entries.flatten().len() + incoming <= MAX_LOG_BYTES {
        0
    } else {
        1 + evicted_count(entries.drop_first(), incoming)
    }
}

/// The entries after one entry is pushed: an entry longer than the cap replaces
/// everything with its last `MAX_LOG_BYTES` bytes; otherwise the oldest entries
/// are evicted until it fits and it is appended.
pub open spec fn push_entry(entries: Seq<Seq<u8>>, entry: Seq<u8>) -> Seq<Seq<u8>> {
    if entry.len() > MAX_LOG_BYTES {
        seq![entry.skip(entry.len() - MAX_LOG_BYTES)]
    } else {
        evict_for(entries, entry.len()).push(entry)
    }
}

/// `a` is a suffix of `b`.
pub open spec fn is_suffix(a: Seq<u8>, b: Seq<u8>) -> bool {
    a.len() <= b.len() && b.skip(b.len() - a.len()) == a
}

/// The bytes of each stored entry.
pub open spec fn entries_view(e: Seq<Vec<u8>>) -> Seq<Seq<u8>> {
    e.map_values(|v: Vec<u8>| v@)
}

/// `total` counts the bytes of `entries`, and they fit under the cap.
pub open spec fn counted_within_cap(entries: Seq<Seq<u8>>, total: usize) -> bool {
    &&& total == entries.flatten().len()
    &&& entries.flatten().len() <= MAX_LOG_BYTES
}

/// The log of a user script's output lines, oldest first.
pub struct LogBuffer {
    entries: VecDeque<Vec<u8>>,
    total_bytes: usize,
}

impl View for LogBuffer {
    type V = Seq<Seq<u8>>;

    closed spec fn view(&self) -> Seq<Seq<u8>> {
        entries_view(self.entries@)
    }
}

proof fn lemma_evict(entries: Seq<Seq<u8>>, incoming: nat)
    ensures
        evicted_count(entries, incoming) <= entries.len(),
        evict_for(entries, incoming) == entries.skip(evicted_count(entries, incoming) as int),
        ({
            let j = evicted_count(entries, incoming) as int;
            &&& entries.skip(j).len() == 0 || entries.skip(j).flatten().len() + incoming
                <= MAX_LOG_BYTES
            &&& j > 0 ==> entries.skip(j - 1).flatten().len() + incoming > MAX_LOG_BYTES
        }),
    decreases entries.len(),
{
    if entries.len() == 0 || entries.flatten().len() + incoming <= MAX_LOG_BYTES {
        assert(entries.skip(0) =~= entries);
    } else {
        let rest = entries.drop_first();
        lemma_evict(rest, incoming);
        let k = evicted_count(rest, incoming) as int;
        assert(rest.skip(k) =~= entries.skip(k + 1));
        if k > 0 {
            assert(rest.skip(k - 1) =~= entries.skip(k));
        } else {
            assert(entries.skip(0) =~= entries);
        }
    }
}

proof fn lemma_evict_fits(entries: Seq<Seq<u8>>, incoming: nat)
    requires
        incoming <= MAX_LOG_BYTES,
    ensures
        evict_for(entries, incoming).flatten().len() + incoming <= MAX_LOG_BYTES,
{
    lemma_evict(entries, incoming);
    let j = evicted_count(entries, incoming) as int;
    if entries.skip(j).len() == 0 {
        assert(entries.skip(j) =~= Seq::<Seq<u8>>::empty());
    }
}

proof fn lemma_flatten_split(s: Seq<Seq<u8>>, j: int)
    requires
        0 <= j <= s.len(),
    ensures
        s.flatten() == s.take(j).flatten() + s.skip(j).flatten(),
{
    vstd::seq_lib::lemma_flatten_concat(s.take(j), s.skip(j));
    assert(s.take(j) + s.skip(j) =~= s);
}

/// The log never holds more than `MAX_LOG_BYTES` bytes: a push onto a log
/// within the cap leaves it within the cap.
pub proof fn lemma_push_stays_within_cap(entries: Seq<Seq<u8>>, entry: Seq<u8>)
    requires
        entries.flatten().len() <= MAX_LOG_BYTES,
    ensures
        push_entry(entries, entry).flatten().len() <= MAX_LOG_BYTES,
{
    if entry.len() > MAX_LOG_BYTES {
        seq![entry.skip(entry.len() - MAX_LOG_BYTES)].lemma_flatten_one_element();
    } else {
        lemma_evict_fits(entries, entry.len());
        evict_for(entries, entry.len()).lemma_flatten_push(entry);
    }
}

/// The most recent line survives a push: the log ends with the pushed entry,
/// or, for an entry longer than the cap, is exactly the entry's last
/// `MAX_LOG_BYTES` bytes.
pub proof fn lemma_push_keeps_latest(entries: Seq<Seq<u8>>, entry: Seq<u8>)
    ensures
        entry.len() <= MAX_LOG_BYTES ==> is_suffix(entry, push_entry(entries, entry).flatten()),
        entry.len() > MAX_LOG_BYTES ==> push_entry(entries, entry).flatten() == entry.skip(
            entry.len() - MAX_LOG_BYTES,
        ),
{
    if entry.len() > MAX_LOG_BYTES {
        seq![entry.skip(entry.len() - MAX_LOG_BYTES)].lemma_flatten_one_element();
    } else {
        let kept = evict_for(entries, entry.len());
        kept.lemma_flatten_push(entry);
        let all = kept.flatten() + entry;
        assert(all.skip(all.len() - entry.len()) =~= entry);
    }
}

/// Eviction drops the oldest bytes first: after a push the log is a suffix of
/// the old log followed by the pushed entry.
pub proof fn lemma_push_is_suffix_of_history(entries: Seq<Seq<u8>>, entry: Seq<u8>)
    ensures
        is_suffix(push_entry(entries, entry).flatten(), entries.flatten() + entry),
{
    let all = entries.flatten() + entry;
    if entry.len() > MAX_LOG_BYTES {
        seq![entry.skip(entry.len() - MAX_LOG_BYTES)].lemma_flatten_one_element();
        let r = entry.skip(entry.len() - MAX_LOG_BYTES);
        assert(all.skip(all.len() - r.len()) =~= r);
    } else {
        lemma_evict(entries, entry.len());
        let j = evicted_count(entries, entry.len()) as int;
        lemma_flatten_split(entries, j);
        let kept = entries.skip(j);
        kept.lemma_flatten_push(entry);
        let r = kept.flatten() + entry;
        assert(all =~= entries.take(j).flatten() + r);
        assert(all.skip(all.len() - r.len()) =~= r);
    }
}

/// Eviction drops only as many oldest entries as it must: the entries kept are
/// a suffix of the old ones that leaves room for the pushed entry, and keeping
/// one more old entry would not have left room.
pub proof fn lemma_push_evicts_only_what_it_must(entries: Seq<Seq<u8>>, entry: Seq<u8>)
    requires
        entry.len() <= MAX_LOG_BYTES,
    ensures
        exists|j: int|
            #![trigger entries.skip(j)]
            {
                &&& 0 <= j <= entries.len()
                &&& push_entry(entries, entry) == entries.skip(j).push(entry)
                &&& entries.skip(j).flatten().len() + entry.len() <= MAX_LOG_BYTES
                &&& j > 0 ==> entries.skip(j - 1).flatten().len() + entry.len() > MAX_LOG_BYTES
            },
{
    lemma_evict(entries, entry.len());
    lemma_evict_fits(entries, entry.len());
    let j = evicted_count(entries, entry.len()) as int;
    assert(entries.skip(j) == evict_for(entries, entry.len()));
}

/// The entries after pushing each of `pushed` in order.
pub open spec fn push_all(entries: Seq<Seq<u8>>, pushed: Seq<Seq<u8>>) -> Seq<Seq<u8>>
    decreases pushed.len(),
{
    if pushed.len() == 0 {
        entries
    } else {
        push_entry(push_all(entries, pushed.drop_last()), pushed.last())
    }
}

/// Pushes that fit under the cap together evict nothing: the log then holds
/// every pushed entry after the old ones, in push order, and its bytes are the
/// old bytes followed by the pushed entries' bytes.
pub proof fn lemma_pushes_that_fit_are_all_kept(entries: Seq<Seq<u8>>, pushed: Seq<Seq<u8>>)
    requires
        entries.flatten().len() + pushed.flatten().len() <= MAX_LOG_BYTES,
    ensures
        push_all(entries, pushed) == entries + pushed,
        push_all(entries, pushed).flatten() == entries.flatten() + pushed.flatten(),
    decreases pushed.len(),
{
    if pushed.len() == 0 {
        assert(entries + pushed =~= entries);
        assert(entries.flatten() + pushed.flatten() =~= entries.flatten());
    } else {
        let init = pushed.drop_last();
        let e = pushed.last();
        assert(init.push(e) =~= pushed);
        init.lemma_flatten_push(e);
        lemma_pushes_that_fit_are_all_kept(entries, init);
        let before = entries + init;
        vstd::seq_lib::lemma_flatten_concat(entries, init);
        assert(before.flatten().len() + e.len() <= MAX_LOG_BYTES);
        assert(evict_for(before, e.len()) == before);
        assert(before.push(e) =~= entries + pushed);
        vstd::seq_lib::lemma_flatten_concat(entries, pushed);
    }
}

/// Copies `src` onto the end of `out`.
fn append_bytes(out: &mut Vec<u8>, src: &[u8])
    ensures
        final(out)@ == old(out)@ + src@,
{
    let ghost start = out@;
    let mut i: usize = 0;
    while i < src.len()
        invariant
            i <= src@.len(),
            out@ == start + src@.take(i as int),
        decreases src@.len() - i,
    {
        out.push(src[i]);
        i = i + 1;
        assert(start + src@.take(i as int) =~= start + src@.take(i - 1) + seq![src@[i - 1]]);
    }
    assert(src@.take(src@.len() as int) =~= src@);
}

/// Writes the decimal digits of `n` onto the end of `out`.
fn write_decimal(n: u128, out: &mut Vec<u8>)
    ensures
        final(out)@ == old(out)@ + decimal(n as nat),
    decreases n,
{
    if n >= 10 {
        write_decimal(n / 10, out);
    }
    let d = (n % 10) as u8;
    out.push(48u8 + d);
    proof {
        if n >= 10 {
            assert(decimal(n as nat) == decimal((n / 10) as nat).push((48 + n % 10) as u8));
        }
    }
}

impl LogBuffer {
    /// The byte count is kept alongside the entries and never exceeds the cap;
    /// every value of a `LogBuffer` keeps this, from construction on.
    #[verifier::type_invariant]
    pub closed spec fn wf(&self) -> bool {
        counted_within_cap(entries_view(self.entries@), self.total_bytes)
    }

    /// An empty log.
    pub fn new() -> (b: Self)
        ensures
            b.wf(),
            b@ == Seq::<Seq<u8>>::empty(),
    {
        let entries: VecDeque<Vec<u8>> = VecDeque::new();
        assert(entries_view(entries@) =~= Seq::<Seq<u8>>::empty());
        LogBuffer { entries, total_bytes: 0 }
    }

    /// Appends a line stamped with the given time in milliseconds since the
    /// Unix epoch, evicting the oldest entries as the cap requires.
    pub fn push_at(&mut self, millis: u128, stream: &str, line: &str)
        ensures
            final(self).wf(),
            final(self)@ == push_entry(old(self)@, entry_bytes(millis as nat, stream@, line@)),
    {
        proof {
            use_type_invariant(&*self);
        }
        let mut entry: Vec<u8> = Vec::new();
        entry.push(91u8);
        write_decimal(millis, &mut entry);
        entry.push(93u8);
        entry.push(32u8);
        entry.push(91u8);
        append_bytes(&mut entry, stream.as_bytes());
        entry.push(93u8);
        entry.push(32u8);
        append_bytes(&mut entry, line.as_bytes());
        entry.push(10u8);
        let ghost e = entry_bytes(millis as nat, stream@, line@);
        assert(entry@ =~= e);
        proof {
            lemma_push_stays_within_cap(old(self)@, e);
        }

        let mut taken = LogBuffer::new();
        std::mem::swap(&mut taken, self);
        proof {
            use_type_invariant(&taken);
        }
        let LogBuffer { mut entries, total_bytes } = taken;
        let mut total = total_bytes;
        assert(entries_view(entries@) == old(self)@);

        if entry.len() > MAX_LOG_BYTES {
            let drop = entry.len() - MAX_LOG_BYTES;
            let tail = slice_to_vec(slice_subrange(entry.as_slice(), drop, entry.len()));
            assert(tail@ =~= e.skip(e.len() - MAX_LOG_BYTES));
            entries.clear();
            let tail_len = tail.len();
            entries.push_back(tail);
            assert(entries_view(entries@) =~= seq![tail@]);
            proof {
                seq![tail@].lemma_flatten_one_element();
            }
            *self = LogBuffer { entries, total_bytes: tail_len };
            return;
        }

        let ghost n = e.len();
        while total + entry.len() > MAX_LOG_BYTES
            invariant
                entry@ == e,
                n == e.len(),
                n <= MAX_LOG_BYTES,
                counted_within_cap(entries_view(entries@), total),
                evict_for(entries_view(entries@), n) == evict_for(old(self)@, n),
            decreases entries@.len(),
        {
            let ghost before = entries_view(entries@);
            assert(before.len() > 0) by {
                if before.len() == 0 {
                    assert(before.flatten() =~= Seq::<u8>::empty());
                }
            }
            let oldest = entries.pop_front();
            let oldest = oldest.unwrap();
            assert(entries_view(entries@) =~= before.drop_first());
            assert(before.flatten() == before[0] + before.drop_first().flatten());
            total = total - oldest.len();
        }
        let ghost kept = entries_view(entries@);
        total = total + entry.len();
        entries.push_back(entry);
        assert(entries_view(entries@) =~= kept.push(e));
        proof {
            kept.lemma_flatten_push(e);
        }
        *self = LogBuffer { entries, total_bytes: total };
    }

    /// Appends a line stamped with the current time, evicting the oldest
    /// entries as the cap requires. The stamp is 0 when the clock reads earlier
    /// than the Unix epoch.
    pub fn push(&mut self, stream: &str, line: &str)
        ensures
            final(self).wf(),
            exists|millis: nat|
                final(self)@ == push_entry(
                    old(self)@,
                    #[trigger] entry_bytes(millis, stream@, line@),
                ),
    {
        let millis = match time_millis() {
            Ok(m) => m,
            Err(_) => 0,
        };
        self.push_at(millis, stream, line);
    }

    /// Records one captured output line: secret values are masked before the
    /// line, stamped with the current time, is appended.
    pub fn record_line(&mut self, secrets: &Secrets, stream: &str, line: &str)
        ensures
            final(self).wf(),
            exists|millis: nat|
                final(self)@ == push_entry(
                    old(self)@,
                    #[trigger] entry_bytes(millis, stream@, mask_all(line@, secret_values(secrets@))),
                ),
    {
        let masked = secrets.mask(line);
        let text: &str = match &masked {
            Cow::Borrowed(t) => t,
            Cow::Owned(t) => t.as_str(),
        };
        self.push(stream, text);
    }

    /// All entries, oldest first, as one byte sequence.
    pub fn snapshot(&self) -> (out: Vec<u8>)
        ensures
            out@ == self@.flatten(),
    {
        proof {
            use_type_invariant(self);
        }
        let mut out: Vec<u8> = Vec::new();
        let mut i: usize = 0;
        assert(self@.take(0) =~= Seq::<Seq<u8>>::empty());
        while i < self.entries.len()
            invariant
                i <= self@.len(),
                self@.len() == self.entries@.len(),
                out@ == self@.take(i as int).flatten(),
            decreases self@.len() - i,
        {
            let entry = &self.entries[i];
            assert(entry@ == self@[i as int]);
            append_bytes(&mut out, entry.as_slice());
            assert(self@.take(i + 1) =~= self@.take(i as int).push(self@[i as int]));
            proof {
                self@.take(i as int).lemma_flatten_push(self@[i as int]);
            }
            i = i + 1;
        }
        assert(self@.take(self@.len() as int) =~= self@);
        out
    }

    /// All entries, oldest first, as one byte sequence, consuming the log; the
    /// same bytes as `snapshot`.
    pub fn into_bytes(self) -> (out: Vec<u8>)
        ensures
            out@ == self@.flatten(),
    {
        if self.entries.len() == 1 {
            let ghost v = self@;
            proof {
                v.lemma_flatten_one_element();
            }
            let LogBuffer { mut entries, .. } = self;
            match entries.pop_front() {
                Some(e) => e,
                None => Vec::new(),
            }
        } else {
            self.snapshot()
        }
    }

    /// Whether the log holds no bytes.
    pub fn is_empty(&self) -> (b: bool)
        ensures
            b == (self@.flatten().len() == 0),
    {
        proof {
            use_type_invariant(self);
        }
        self.total_bytes == 0
    }

    /// How many bytes the log holds; never more than `MAX_LOG_BYTES`.
    pub fn total_bytes(&self) -> (n: usize)
        ensures
            n == self@.flatten().len(),
            n <= MAX_LOG_BYTES,
    {
        proof {
            use_type_invariant(self);
        }
        self.total_bytes
    }

    /// The periodic uploader's decision: with the byte count last uploaded,
    /// answer nothing when the log is empty or unchanged in size, else the byte
    /// count to remember and the bytes to upload.
    pub fn next_upload(&self, last_uploaded_bytes: usize) -> (r: Option<(usize, Vec<u8>)>)
        ensures
            r is None <==> (self@.flatten().len() == 0 || self@.flatten().len()
                == last_uploaded_bytes),
            r matches Some((n, bytes)) ==> (n == self@.flatten().len() && bytes@ == self@.flatten()),
    {
        if self.is_empty() || self.total_bytes() == last_uploaded_bytes {
            return None;
        }
        Some((self.total_bytes(), self.snapshot()))
    }
}

/// One of the user script's two output streams.
#[derive(Debug, Clone, Copy, PartialEq, Eq, Structural)]
pub enum Stream {
    Stdout,
    Stderr,
}

/// The label a stream's lines carry in the log.
pub open spec fn stream_label(s: Stream) -> Seq<char> {
    match s {
        Stream::Stdout => "stdout"@,
        Stream::Stderr => "stderr"@,
    }
}

impl Stream {
    /// The label this stream's lines carry in the log.
    pub fn label(&self) -> (l: &'static str)
        ensures
            l@ == stream_label(*self),
    {
        match self {
            Stream::Stdout => "stdout",
            Stream::Stderr => "stderr",
        }
    }
}

/// Which of the script's output streams are still open.
#[derive(Debug, Clone, Copy, PartialEq, Eq, Structural)]
pub struct Capture {
    pub stdout_open: bool,
    pub stderr_open: bool,
}

/// `state` with the given stream closed.
pub open spec fn closed(state: Capture, s: Stream) -> Capture {
    match s {
        Stream::Stdout => Capture { stdout_open: false, ..state },
        Stream::Stderr => Capture { stderr_open: false, ..state },
    }
}

/// Closing one stream leaves the other stream as it was, and capturing
/// finishes on a stream's close exactly when the other stream had already
/// closed.
pub proof fn lemma_closing_one_stream_keeps_the_other(state: Capture, s: Stream)
    ensures
        s == Stream::Stdout ==> !closed(state, s).stdout_open && closed(state, s).stderr_open
            == state.stderr_open,
        s == Stream::Stderr ==> !closed(state, s).stderr_open && closed(state, s).stdout_open
            == state.stdout_open,
        (!closed(state, s).stdout_open && !closed(state, s).stderr_open) <==> (if s
            == Stream::Stdout {
            !state.stderr_open
        } else {
            !state.stdout_open
        }),
{
}

impl Capture {
    /// Capturing starts with both streams open.
    pub fn start() -> (c: Capture)
        ensures
            c.stdout_open && c.stderr_open,
    {
        Capture { stdout_open: true, stderr_open: true }
    }
}

/// What reading the script's output produced.
#[derive(Debug)]
pub enum CaptureEvent {
    /// A line (without its line ending) read from a stream.
    Line(Stream, String),
    /// A stream reached its end.
    Closed(Stream),
    /// Reading a stream failed.
    ReadFailed,
}

/// How capturing goes on after an event.
#[derive(Debug, Clone, Copy, PartialEq, Eq, Structural)]
pub enum CaptureNext {
    /// Keep reading the streams still open.
    Continue(Capture),
    /// Both streams are closed: wait for the script to exit.
    Finished,
    /// Reading failed: the run of the script fails with that error.
    Failed,
}

impl LogBuffer {
    /// One step of capturing the script's output: a line is recorded once,
    /// masked, with its stream's label, at the moment it is read, and
    /// capturing goes on; a closed stream is no longer read, and capturing
    /// finishes when both are closed; a failed read ends it. Only a line
    /// changes the log.
    pub fn capture_step(&mut self, secrets: &Secrets, state: Capture, event: CaptureEvent) -> (next:
        CaptureNext)
        ensures
            event matches CaptureEvent::Line(s, l) ==> {
                &&& next == CaptureNext::Continue(state)
                &&& exists|millis: nat|
                    final(self)@ == push_entry(
                        old(self)@,
                        #[trigger] entry_bytes(
                            millis,
                            stream_label(s),
                            mask_all(l@, secret_values(secrets@)),
                        ),
                    )
            },
            !(event is Line) ==> final(self)@ == old(self)@,
            event matches CaptureEvent::Closed(s) ==> next == (if !closed(state, s).stdout_open
                && !closed(state, s).stderr_open {
                CaptureNext::Finished
            } else {
                CaptureNext::Continue(closed(state, s))
            }),
            event is ReadFailed ==> next == CaptureNext::Failed,
    {
        match event {
            CaptureEvent::Line(s, l) => {
                self.record_line(secrets, s.label(), l.as_str());
                CaptureNext::Continue(state)
            },
            CaptureEvent::Closed(s) => {
                let after = match s {
                    Stream::Stdout => Capture { stdout_open: false, stderr_open: state.stderr_open },
                    Stream::Stderr => Capture { stdout_open: state.stdout_open, stderr_open: false },
                };
                if !after.stdout_open && !after.stderr_open {
                    CaptureNext::Finished
                } else {
                    CaptureNext::Continue(after)
                }
            },
            CaptureEvent::ReadFailed => CaptureNext::Failed,
        }
    }
}

impl Default for LogBuffer {
    fn default() -> (b: Self)
        ensures
            b.wf(),
            b@ == Seq::<Seq<u8>>::empty(),
    {
        Self::new()
    }
}

#[verifier::external_type_specification]
#[verifier::external_body]
pub struct ExIoError(std::io::Error);

/// Why the user script did not yield an exit code.
#[derive(Debug)]
pub enum ExecutionError {
    /// Spawning or waiting for the script failed.
    Execution(std::io::Error),
    /// The script was terminated by this signal (-1 when unknown).
    Signal(i32),
    /// An output pipe of the script was not captured.
    Pipe,
}

/// The result of a finished script from its exit status: the exit code when
/// there is one, else termination by the signal (-1 when none is reported).
pub fn script_outcome(code: Option<i32>, signal: Option<i32>) -> (r: Result<i32, ExecutionError>)
    ensures
        code matches Some(c) ==> (r matches Ok(x) && x == c),
        code is None ==> (r matches Err(ExecutionError::Signal(s)) && s == (match signal {
            Some(v) => v,
            None => -1i32,
        })),
{
    match code {
        Some(c) => Ok(c),
        None => Err(
            ExecutionError::Signal(
                match signal {
                    Some(s) => s,
                    None => -1,
                },
            ),
        ),
    }
}

/// A node succeeded exactly when its script exited with code 0.
pub fn node_succeeded(exit_code: Option<i32>) -> (b: bool)
    ensures
        b == (exit_code == Some(0i32)),
{
    match exit_code {
        Some(0) => true,
        _ => false,
    }
}

impl ExecutionError {
    /// `m` is this error's message.
    pub open spec fn describes(&self, m: Seq<char>) -> bool {
        match self {
            ExecutionError::Execution(e) => exists|d: String|
                #[trigger] to_string_from_display_ensures::<std::io::Error>(e, d) && m
                    == "Script execution failed: "@ + d@,
            ExecutionError::Signal(sig) => exists|d: String|
                #[trigger] to_string_from_display_ensures::<i32>(sig, d) && m
                    == "Script terminated by signal: "@ + d@,
            ExecutionError::Pipe => m == "Process pipe was not captured"@,
        }
    }

    /// The error's message.
    pub fn message(&self) -> (m: String)
        ensures
            self.describes(m@),
    {
        match self {
            ExecutionError::Execution(e) => prefixed("Script execution failed: ", e.to_string().as_str()),
            ExecutionError::Signal(sig) => prefixed(
                "Script terminated by signal: ",
                sig.to_string().as_str(),
            ),
            ExecutionError::Pipe => "Process pipe was not captured".to_owned(),
        }
    }
}

} // verus!
