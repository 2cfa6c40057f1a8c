//! One block of a download: the byte range `start..=end` of the file, of
//! which `current` bytes are held, and the decisions taken while it is
//! fetched (which range to ask for, how far the data has come, when to try
//! again and when to give up).

use vstd::prelude::*;
use vstd::string::*;

use crate::downloader::error::RequestError;
use crate::downloader::http_client::{proxy_accepted, HttpClient};

use crate::downloader::file_request::{client_config_for, with_user_agent, FileRequest, FileRequestView};
use crate::downloader::headers::{header_name, header_room, header_value_ok, header_value_byte};
use crate::downloader::text::{decimal, is_digit, lemma_decimal_digits, lemma_parse_decimal, parse_u64_spec, push_decimal};

verus! {

broadcast use vstd::string::group_string_axioms;

/// The size of the buffer through which a block reports its progress.
pub const PROGRESS_BUFFER: usize = 20480;

/// The seconds waited before the next try, per failure counted so far.
pub const RETRY_DELAY_SECS: u8 = 3;

/// The name of the header that asks for a byte range.
pub open spec fn range_name() -> Seq<u8> {
    "range".spec_bytes()
}

/// The value that asks for the bytes `from..=to`: `bytes=<from>-<to>`.
pub open spec fn range_value(from: nat, to: nat) -> Seq<u8> {
    seq![98u8, 121u8, 116u8, 101u8, 115u8, 61u8] + decimal(from) + seq![45u8] + decimal(to)
}

/// A block is complete once the bytes held reach its end.
pub open spec fn block_complete(start: int, current: int, end: int) -> bool {
    current + start >= end
}

/// What a failed try leads to, given the failures counted before it.
pub open spec fn failure_outcome(retry: u8, retry_max: u8) -> RetryDecision {
    if retry + 1 > retry_max {
        RetryDecision::GiveUp
    } else {
        RetryDecision::Retry((RETRY_DELAY_SECS * (retry + 1)) as u64)
    }
}

/// The range header reads back as the range asked for: after `bytes=`
/// come the digits of the first byte, a `-`, and the digits of the last.
pub proof fn lemma_range_value_reads_back(from: u64, to: u64)
    ensures
        range_value(from as nat, to as nat).subrange(0, 6) == seq![98u8, 121u8, 116u8, 101u8, 115u8, 61u8],
        parse_u64_spec(range_value(from as nat, to as nat).subrange(6, 6 + decimal(from as nat).len() as int)) == Some(from),
        range_value(from as nat, to as nat)[6 + decimal(from as nat).len() as int] == 45u8,
        parse_u64_spec(range_value(from as nat, to as nat).subrange(
            7 + decimal(from as nat).len() as int,
            range_value(from as nat, to as nat).len() as int,
        )) == Some(to),
{
    let a = decimal(from as nat);
    let r = range_value(from as nat, to as nat);
    lemma_parse_decimal(from);
    lemma_parse_decimal(to);
    assert(r.subrange(0, 6) =~= seq![98u8, 121u8, 116u8, 101u8, 115u8, 61u8]);
    assert(r.subrange(6, 6 + a.len() as int) =~= a);
    assert(r.subrange(7 + a.len() as int, r.len() as int) =~= decimal(to as nat));
}

/// A block of the bytes `start..=end` holding `current` of them is complete
/// exactly when at most its last byte is missing: all bytes before `end` are
/// held. While any byte before `end` is missing it is not complete, so a
/// restart fetches the range from the first byte not held.
pub proof fn lemma_complete_means_held(start: int, current: int, end: int)
    ensures
        block_complete(start, current, end) <==> current >= end - start,
        start + current < end ==> !block_complete(start, current, end),
        current == 0 && start < end ==> !block_complete(start, current, end),
{
}

/// Once complete, a block stays complete as more bytes arrive.
pub proof fn lemma_complete_stays_complete(start: int, current: int, end: int, more: int)
    requires
        block_complete(start, current, end),
        more >= 0,
    ensures
        block_complete(start, current + more, end),
{
}

/// Failures in a row after an answer: each of the first `retry_max` is
/// followed by a wait of three seconds per failure counted, and the one
/// after them makes the block give up.
pub proof fn lemma_retry_schedule(retry_max: u8, k: u8)
    requires
        1 <= k,
        k <= retry_max + 1,
        k <= u8::MAX,
    ensures
        k <= retry_max ==> failure_outcome((k - 1) as u8, retry_max) == RetryDecision::Retry((RETRY_DELAY_SECS * k) as u64),
        k == retry_max + 1 ==> failure_outcome((k - 1) as u8, retry_max) == RetryDecision::GiveUp,
{
}

/// The header value for the range `from..=to`.
pub fn range_header_value(from: u64, to: u64) -> (v: Vec<u8>)
    ensures
        v@ == range_value(from as nat, to as nat),
        header_value_ok(v@),
{
    let mut v: Vec<u8> = Vec::new();
    v.push(98u8);
    v.push(121u8);
    v.push(116u8);
    v.push(101u8);
    v.push(115u8);
    v.push(61u8);
    push_decimal(&mut v, from);
    v.push(45u8);
    push_decimal(&mut v, to);
    proof {
        lemma_decimal_digits(from as nat);
        lemma_decimal_digits(to as nat);
        assert(v@ =~= range_value(from as nat, to as nat));
        let a = decimal(from as nat);
        let b = decimal(to as nat);
        assert forall|i: int| 0 <= i < v@.len() implies header_value_byte(#[trigger] v@[i]) by {
            if 6 <= i < 6 + a.len() {
                assert(v@[i] == a[i - 6]);
                assert(is_digit(a[i - 6]));
            } else if 7 + a.len() <= i {
                assert(v@[i] == b[i - 7 - a.len()]);
                assert(is_digit(b[i - 7 - a.len()]));
            }
        }
    }
    v
}

/// What to do when a block is (re)started.
#[derive(Debug, Clone, Copy, PartialEq, Eq, Structural)]
pub enum BlockStep {
    /// The block already holds its range; the count of bytes held is reported.
    Complete(u64),
    /// The range header is set: fetch the rest of the range.
    Fetch,
}

/// What to do after a failed try.
#[derive(Debug, Clone, Copy, PartialEq, Eq, Structural)]
pub enum RetryDecision {
    /// Wait this many seconds, then start the block again.
    Retry(u64),
    /// The tries are used up: the block fails.
    GiveUp,
}

pub struct BlockView {
    pub start: u64,
    pub end: u64,
    pub current: u64,
    pub dir: Seq<char>,
    pub name: Seq<char>,
    pub retry: u8,
    pub retry_max: u8,
    pub request: FileRequestView,
    pub rx_size: usize,
}

#[derive(Debug)]
pub struct Block {
    /// First byte of the range.
    start: u64,
    /// Last byte of the range.
    end: u64,
    /// Bytes held so far.
    current: u64,
    /// Directory of the part file.
    dir: String,
    /// Name of the part file.
    name: String,
    /// Failed tries counted since the last answer.
    retry: u8,
    /// Failed tries allowed.
    retry_max: u8,
    /// The request the range is fetched with.
    request: FileRequest,
    /// Size of the progress buffer.
    rx_size: usize,
}

impl View for Block {
    type V = BlockView;

    closed spec fn view(&self) -> BlockView {
        BlockView {
            start: self.start,
            end: self.end,
            current: self.current,
            dir: self.dir@,
            name: self.name@,
            retry: self.retry,
            retry_max: self.retry_max,
            request: self.request@,
            rx_size: self.rx_size,
        }
    }
}

impl Block {
    /// A block for the bytes `start..=end`, none of them held yet, written to
    /// the part file `name` in `dir`.
    pub fn new(start: u64, end: u64, dir: String, name: String, retry_max: u8, request: FileRequest) -> (b: Self)
        ensures
            b@ == (BlockView {
                start,
                end,
                current: 0,
                dir: dir@,
                name: name@,
                retry: 0,
                retry_max,
                request: request@,
                rx_size: PROGRESS_BUFFER,
            }),
    {
        Block { start, end, current: 0, dir, name, retry: 0, retry_max, request, rx_size: PROGRESS_BUFFER }
    }

    pub fn set_rx_size(&mut self, rx_size: usize)
        ensures
            final(self)@ == (BlockView { rx_size, ..old(self)@ }),
    {
        self.rx_size = rx_size;
    }

    pub fn set_current(&mut self, current: u64)
        ensures
            final(self)@ == (BlockView { current, ..old(self)@ }),
    {
        self.current = current;
    }

    /// Whether the bytes held reach the end of the range.
    pub fn is_complete(&self) -> (r: bool)
        requires
            self@.start + self@.current <= u64::MAX,
        ensures
            r == block_complete(self@.start as int, self@.current as int, self@.end as int),
    {
        self.current + self.start >= self.end
    }

    /// Starts (or restarts) the block: a complete block reports the bytes it
    /// holds; any other sets on its request the range from the first byte
    /// not held to the end, and is to be fetched.
    pub fn begin_request(&mut self) -> (r: BlockStep)
        requires
            old(self)@.start + old(self)@.current <= u64::MAX,
            header_room(old(self)@.request.headers),
        ensures
            block_complete(old(self)@.start as int, old(self)@.current as int, old(self)@.end as int) ==> {
                &&& r == BlockStep::Complete(old(self)@.current)
                &&& final(self)@ == old(self)@
            },
            !block_complete(old(self)@.start as int, old(self)@.current as int, old(self)@.end as int) ==> {
                &&& r == BlockStep::Fetch
                &&& final(self)@ == (BlockView {
                    request: FileRequestView {
                        headers: old(self)@.request.headers.insert(
                            range_name(),
                            seq![range_value((old(self)@.start + old(self)@.current) as nat, old(self)@.end as nat)],
                        ),
                        ..old(self)@.request
                    },
                    ..old(self)@
                })
            },
    {
        if self.is_complete() {
            return BlockStep::Complete(self.current);
        }
        let value = range_header_value(self.start + self.current, self.end);
        let name = "range";
        proof {
            reveal_strlit("range");
            assert(is_ascii(name));
            assert(header_name(name.spec_bytes()) == Some(name.spec_bytes()));
        }
        let _ = self.request.insert_header_bytes(name.as_bytes(), value.as_slice());
        BlockStep::Fetch
    }

    /// Makes the client that fetches the block; as
    /// `FileRequest::create_client` on the block's request.
    pub fn create_client(&mut self) -> (r: Result<HttpClient, RequestError>)
        requires
            header_room(old(self)@.request.headers),
        ensures
            final(self)@ == (BlockView {
                request: FileRequestView { headers: with_user_agent(old(self)@.request.headers), ..old(self)@.request },
                ..old(self)@
            }),
            r matches Ok(c) ==> c@ == client_config_for(old(self)@.request),
            (old(self)@.request.proxy matches Some(p) && !proxy_accepted(p)) <==> (r matches Err(RequestError::Proxy(_))),
            r matches Err(e) ==> !(e is Header),
    {
        self.request.create_client()
    }

    /// The server answered: the count of failed tries starts over.
    pub fn on_connected(&mut self)
        ensures
            final(self)@ == (BlockView { retry: 0, ..old(self)@ }),
    {
        self.retry = 0;
    }

    /// A chunk of `len` bytes arrived; returns the bytes now held.
    pub fn on_chunk(&mut self, len: u64) -> (held: u64)
        requires
            old(self)@.current + len <= u64::MAX,
        ensures
            held == old(self)@.current + len,
            final(self)@ == (BlockView { current: held, ..old(self)@ }),
    {
        self.current = self.current + len;
        self.current
    }

    /// A try failed: the failure is counted; past the allowed count the block
    /// gives up, else it waits three seconds per failure counted, then
    /// starts again.
    pub fn on_failure(&mut self) -> (r: RetryDecision)
        requires
            old(self)@.retry < u8::MAX,
            old(self)@.retry + 1 <= old(self)@.retry_max ==> RETRY_DELAY_SECS * (old(self)@.retry + 1) <= u8::MAX,
        ensures
            r == failure_outcome(old(self)@.retry, old(self)@.retry_max),
            final(self)@ == (BlockView { retry: (old(self)@.retry + 1) as u8, ..old(self)@ }),
    {
        self.retry = self.retry + 1;
        if self.retry > self.retry_max {
            return RetryDecision::GiveUp;
        }
        RetryDecision::Retry((RETRY_DELAY_SECS * self.retry) as u64)
    }

    pub fn start(&self) -> (r: u64)
        ensures
            r == self@.start,
    {
        self.start
    }

    pub fn end(&self) -> (r: u64)
        ensures
            r == self@.end,
    {
        self.end
    }

    pub fn current(&self) -> (r: u64)
        ensures
            r == self@.current,
    {
        self.current
    }

    pub fn retry(&self) -> (r: u8)
        ensures
            r == self@.retry,
    {
        self.retry
    }

    pub fn retry_max(&self) -> (r: u8)
        ensures
            r == self@.retry_max,
    {
        self.retry_max
    }

    pub fn rx_size(&self) -> (r: usize)
        ensures
            r == self@.rx_size,
    {
        self.rx_size
    }

    pub fn dir(&self) -> (r: &str)
        ensures
            r@ == self@.dir,
    {
        self.dir.as_str()
    }

    pub fn name(&self) -> (r: &str)
        ensures
            r@ == self@.name,
    {
        self.name.as_str()
    }

    pub fn request(&self) -> (r: &FileRequest)
        ensures
            r@ == self@.request,
    {
        &self.request
    }
}

} // verus!
