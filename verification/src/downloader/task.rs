//! A download task: which file to fetch, how, and where to put it. The file
//! is split into as many blocks as the task has threads; each block is
//! fetched into its own part file, and the parts are joined in order.

use reqwest::header::HeaderMap;
use vstd::prelude::*;
use vstd::string::*;

use crate::downloader::block::{Block, BlockView, PROGRESS_BUFFER};
use crate::downloader::file_request::{clone_opt_string, opt_text, FileRequest, FileRequestView};
use crate::downloader::headers::{
    empty_headers, header_entries, header_name, header_room, header_value_ok, headers_clone,
    headers_insert, headers_len, headers_new, HeaderError, HEADER_LIMIT,
};
use crate::downloader::text::{
    decimal, decimal_string, decimal_text, lemma_decimal_text_injective,
    lemma_decimal_text_is_decimal, lemma_parse_decimal, parse_u64_spec,
};

verus! {

broadcast use vstd::string::group_string_axioms;

/// Threads of a new task.
pub const DEFAULT_THREADS: u8 = 2;

/// Failed tries a block of a new task may make.
pub const DEFAULT_RETRY: u8 = 5;

/// What follows the last `c` in `s` (all of `s` when there is none).
pub open spec fn after_last(s: Seq<char>, c: char) -> Seq<char>
    decreases s.len(),
{
    if s.len() == 0 {
        s
    } else if s.last() == c {
        Seq::empty()
    } else {
        after_last(s.drop_last(), c).push(s.last())
    }
}

/// What precedes the first `c` in `s` (all of `s` when there is none).
pub open spec fn before_first(s: Seq<char>, c: char) -> Seq<char>
    decreases s.len(),
{
    if s.len() == 0 {
        s
    } else if s[0] == c {
        Seq::empty()
    } else {
        seq![s[0]] + before_first(s.drop_first(), c)
    }
}

/// The name of the file a URL points to: its last path segment, without
/// the query.
pub open spec fn file_name_of(url: Seq<char>) -> Seq<char> {
    before_first(after_last(url, '/'), '?')
}

/// The name the downloaded file is saved under.
pub open spec fn task_name(t: FileTaskView) -> Seq<char> {
    match t.name {
        Some(n) => n,
        None => file_name_of(t.url),
    }
}

/// The name of the part file of block `i`: `<name>.<tail><i>`.
pub open spec fn part_name(t: FileTaskView, i: nat) -> Seq<char> {
    task_name(t) + seq!['.'] + t.tail + decimal_text(i)
}

/// The sizes and counts for which a file can be split: at least one block,
/// and at least one byte in every block.
pub open spec fn plan_ok(size: nat, thread: nat) -> bool {
    thread >= 1 && size >= 1 && (thread == 1 || size >= thread)
}

/// The first byte of block `i` when `size` bytes are split in `thread` blocks.
pub open spec fn block_start(size: nat, thread: nat, i: nat) -> int {
    ((size / thread) * i) as int
}

/// The last byte of block `i`: the last block runs to the end of the file.
pub open spec fn block_end(size: nat, thread: nat, i: nat) -> int {
    if i + 1 == thread {
        size - 1
    } else {
        (size / thread) * (i + 1) - 1
    }
}

/// The parts joined in order.
pub open spec fn joined(parts: Seq<Seq<u8>>) -> Seq<u8>
    decreases parts.len(),
{
    if parts.len() == 0 {
        Seq::empty()
    } else {
        joined(parts.drop_last()) + parts.last()
    }
}

proof fn lemma_after_last(s: Seq<char>, c: char, k: int)
    requires
        0 <= k <= s.len(),
        forall|j: int| k <= j < s.len() ==> s[j] != c,
        k == 0 || s[k - 1] == c,
    ensures
        after_last(s, c) == s.subrange(k, s.len() as int),
    decreases s.len(),
{
    if s.len() == k {
        if k > 0 {
            assert(s.last() == c);
        }
        assert(s.subrange(k, s.len() as int) =~= Seq::<char>::empty());
    } else {
        lemma_after_last(s.drop_last(), c, k);
        assert(s.drop_last().subrange(k, s.len() - 1).push(s.last()) =~= s.subrange(k, s.len() as int));
    }
}

proof fn lemma_before_first(s: Seq<char>, c: char, m: int)
    requires
        0 <= m <= s.len(),
        forall|j: int| 0 <= j < m ==> s[j] != c,
        m == s.len() || s[m] == c,
    ensures
        before_first(s, c) == s.subrange(0, m),
    decreases s.len(),
{
    if m == 0 {
        assert(s.subrange(0, 0) =~= Seq::<char>::empty());
    } else {
        lemma_before_first(s.drop_first(), c, m - 1);
        assert(seq![s[0]] + s.drop_first().subrange(0, m - 1) =~= s.subrange(0, m));
    }
}

/// The first and last byte of block `i` when `size` bytes are split in
/// `thread` blocks.
pub fn block_range(size: u64, thread: u8, i: u8) -> (r: (u64, u64))
    requires
        plan_ok(size as nat, thread as nat),
        i < thread,
    ensures
        r.0 == block_start(size as nat, thread as nat, i as nat),
        r.1 == block_end(size as nat, thread as nat, i as nat),
{
    let bs: u64 = size / (thread as u64);
    let ii: u64 = i as u64;
    let tt: u64 = thread as u64;
    assert(bs * ii <= bs * tt && bs * tt <= size) by (nonlinear_arith)
        requires
            bs == size / tt,
            ii < tt,
            tt >= 1,
    ;
    assert(bs * (ii + 1) <= bs * tt) by (nonlinear_arith)
        requires
            ii < tt,
    ;
    let start = bs * ii;
    let end = if i == thread - 1 {
        size - 1
    } else {
        assert(bs >= 1 && bs * (ii + 1) >= 1) by (nonlinear_arith)
            requires
                bs == size / tt,
                size >= tt,
                tt >= 1,
        ;
        bs * (ii + 1) - 1
    };
    (start, end)
}

/// The blocks of a split cover the file exactly once, in order: the first
/// starts at byte 0, each starts right after the one before it ends, the
/// last ends at the last byte, and none is empty.
pub proof fn lemma_blocks_partition(size: nat, thread: nat)
    requires
        plan_ok(size, thread),
    ensures
        block_start(size, thread, 0) == 0,
        block_end(size, thread, (thread - 1) as nat) == size - 1,
        forall|i: nat| i + 1 < thread ==> block_start(size, thread, i + 1) == #[trigger] block_end(size, thread, i) + 1,
        forall|i: nat| i < thread ==> block_start(size, thread, i) <= #[trigger] block_end(size, thread, i),
        forall|i: nat| i < thread ==> 0 <= #[trigger] block_start(size, thread, i) && block_end(size, thread, i) <= size - 1,
{
    let bs = size / thread;
    assert forall|i: nat| i < thread implies 0 <= #[trigger] block_start(size, thread, i) && block_end(size, thread, i) <= size - 1 by {
        assert(bs * (i + 1) <= bs * thread && bs * thread <= size && bs * i >= 0) by (nonlinear_arith)
            requires
                bs == size / thread,
                i < thread,
                thread >= 1,
        ;
    }
    assert(bs * 0 == 0) by (nonlinear_arith);
    assert forall|i: nat| i + 1 < thread implies block_start(size, thread, i + 1) == #[trigger] block_end(size, thread, i) + 1 by {
    }
    assert forall|i: nat| i < thread implies block_start(size, thread, i) <= #[trigger] block_end(size, thread, i) by {
        if i + 1 == thread {
            if thread == 1 {
                assert(bs * i == 0) by (nonlinear_arith)
                    requires
                        i == 0,
                ;
            } else {
                assert(bs >= 1) by (nonlinear_arith)
                    requires
                        bs == size / thread,
                        size >= thread,
                        thread >= 1,
                ;
                assert(bs * i + bs <= size) by (nonlinear_arith)
                    requires
                        bs == size / thread,
                        i + 1 == thread,
                        size >= thread,
                        thread >= 1,
                ;
            }
        } else {
            assert(bs * i + bs == bs * (i + 1) && bs >= 1) by (nonlinear_arith)
                requires
                    bs == size / thread,
                    size >= thread,
                    thread >= 1,
            ;
        }
    }
}

/// Distinct blocks of a task write to distinct part files.
pub proof fn lemma_part_names_distinct(t: FileTaskView, i: nat, j: nat)
    requires
        i != j,
    ensures
        part_name(t, i) != part_name(t, j),
{
    let p = task_name(t) + seq!['.'] + t.tail;
    assert(part_name(t, i) == p + decimal_text(i));
    assert(part_name(t, j) == p + decimal_text(j));
    if part_name(t, i) == part_name(t, j) {
        assert((p + decimal_text(i)).subrange(p.len() as int, part_name(t, i).len() as int) =~= decimal_text(i));
        assert((p + decimal_text(j)).subrange(p.len() as int, part_name(t, j).len() as int) =~= decimal_text(j));
        lemma_decimal_text_injective(i, j);
    }
}

/// The part file of block `i` is named after the saved file: its name, a
/// dot, the task's tail, then the index `i` in decimal (the characters after
/// the tail read back as `i`).
pub proof fn lemma_part_name_layout(t: FileTaskView, i: nat)
    ensures
        part_name(t, i).subrange(0, task_name(t).len() as int) == task_name(t),
        part_name(t, i)[task_name(t).len() as int] == '.',
        part_name(t, i).subrange(task_name(t).len() + 1 as int, task_name(t).len() + 1 + t.tail.len() as int) == t.tail,
        part_name(t, i).len() == task_name(t).len() + 1 + t.tail.len() + decimal_text(i).len(),
        part_name(t, i).subrange(task_name(t).len() + 1 + t.tail.len() as int, part_name(t, i).len() as int) == decimal_text(i),
        decimal_text(i).len() == decimal(i).len(),
        forall|k: int| 0 <= k < decimal(i).len() ==> decimal_text(i)[k] as u32 == #[trigger] decimal(i)[k] as u32,
        i <= u64::MAX ==> parse_u64_spec(decimal(i)) == Some(i as u64),
{
    let n = task_name(t).len() as int;
    let p = part_name(t, i);
    assert(p.subrange(0, n) =~= task_name(t));
    assert(p.subrange(n + 1, n + 1 + t.tail.len()) =~= t.tail);
    assert(p.subrange(n + 1 + t.tail.len(), p.len() as int) =~= decimal_text(i));
    lemma_decimal_text_is_decimal(i);
    if i <= u64::MAX {
        lemma_parse_decimal(i as u64);
    }
}

proof fn lemma_after_last_free(s: Seq<char>, c: char)
    ensures
        forall|k: int| 0 <= k < after_last(s, c).len() ==> after_last(s, c)[k] != c,
    decreases s.len(),
{
    if s.len() > 0 && s.last() != c {
        lemma_after_last_free(s.drop_last(), c);
        let r = after_last(s.drop_last(), c);
        assert(after_last(s, c) == r.push(s.last()));
        assert forall|k: int| 0 <= k < r.push(s.last()).len() implies r.push(s.last())[k] != c by {
            if k < r.len() {
                assert(r.push(s.last())[k] == r[k]);
            }
        }
    }
}

proof fn lemma_before_first_prefix(s: Seq<char>, c: char)
    ensures
        before_first(s, c).len() <= s.len(),
        before_first(s, c) == s.subrange(0, before_first(s, c).len() as int),
        forall|k: int| 0 <= k < before_first(s, c).len() ==> before_first(s, c)[k] != c,
    decreases s.len(),
{
    if s.len() > 0 && s[0] != c {
        lemma_before_first_prefix(s.drop_first(), c);
        let r = before_first(s.drop_first(), c);
        assert(seq![s[0]] + r =~= s.subrange(0, r.len() + 1 as int)) by {
            assert(r =~= s.drop_first().subrange(0, r.len() as int));
        }
    } else if s.len() > 0 {
        assert(s.subrange(0, 0) =~= Seq::<char>::empty());
    }
}

/// The name taken from a URL is a single path segment without a query: it
/// holds neither `/` nor `?`.
pub proof fn lemma_file_name_is_segment(url: Seq<char>)
    ensures
        forall|k: int| 0 <= k < file_name_of(url).len() ==> file_name_of(url)[k] != '/' && file_name_of(url)[k] != '?',
{
    let seg = after_last(url, '/');
    lemma_after_last_free(url, '/');
    lemma_before_first_prefix(seg, '?');
    assert forall|k: int| 0 <= k < file_name_of(url).len() implies file_name_of(url)[k] != '/' && file_name_of(url)[k] != '?' by {
        assert(file_name_of(url)[k] == seg[k]);
    }
}

/// The name taken from a URL is the whole of its last path segment, up to
/// the first `?` after it: for the position `k` just after the last `/` (or
/// the start) and the first `?` at `q` from there (or the end), the name is
/// exactly the characters from `k` to `q`.
pub proof fn lemma_file_name_is_whole_segment(url: Seq<char>, k: int, q: int)
    requires
        0 <= k <= q <= url.len(),
        k == 0 || url[k - 1] == '/',
        forall|j: int| k <= j < url.len() ==> url[j] != '/',
        forall|j: int| k <= j < q ==> url[j] != '?',
        q == url.len() || url[q] == '?',
    ensures
        file_name_of(url) == url.subrange(k, q),
{
    lemma_after_last(url, '/', k);
    let seg = url.subrange(k, url.len() as int);
    lemma_before_first(seg, '?', q - k);
    assert(seg.subrange(0, q - k) =~= url.subrange(k, q));
}

/// A URL without a query ends with the name taken from it, and a URL
/// without `/` or `?` is its own name.
pub proof fn lemma_file_name_ends_url(url: Seq<char>)
    ensures
        (forall|j: int| 0 <= j < url.len() ==> url[j] != '?') ==> file_name_of(url) == url.subrange(url.len() - file_name_of(url).len(), url.len() as int),
        (forall|j: int| 0 <= j < url.len() ==> url[j] != '?' && url[j] != '/') ==> file_name_of(url) == url,
{
    if forall|j: int| 0 <= j < url.len() ==> url[j] != '?' {
        let n = url.len() as int;
        let k = last_slash_end(url);
        lemma_file_name_is_whole_segment(url, k, n);
        assert(url.subrange(k, n) =~= url.subrange(n - file_name_of(url).len(), n));
        if forall|j: int| 0 <= j < url.len() ==> url[j] != '?' && url[j] != '/' {
            lemma_file_name_is_whole_segment(url, 0, n);
            assert(url.subrange(0, n) =~= url);
        }
    }
}

proof fn last_slash_end(url: Seq<char>) -> (k: int)
    ensures
        0 <= k <= url.len(),
        k == 0 || url[k - 1] == '/',
        forall|j: int| k <= j < url.len() ==> url[j] != '/',
    decreases url.len(),
{
    if url.len() == 0 {
        0
    } else if url.last() == '/' {
        url.len() as int
    } else {
        let k = last_slash_end(url.drop_last());
        assert forall|j: int| k <= j < url.len() implies url[j] != '/' by {
            if j < url.len() - 1 {
                assert(url[j] == url.drop_last()[j]);
            }
        }
        if k > 0 {
            assert(url[k - 1] == url.drop_last()[k - 1]);
        }
        k
    }
}

/// The part holding block `i` of a file with the bytes `f`.
pub open spec fn block_part(f: Seq<u8>, thread: nat, i: nat) -> Seq<u8> {
    f.subrange(block_start(f.len(), thread, i), block_end(f.len(), thread, i) + 1)
}

/// The parts holding each block of a file with the bytes `f`, in order.
pub open spec fn block_parts(f: Seq<u8>, thread: nat) -> Seq<Seq<u8>> {
    Seq::new(thread, |i: int| block_part(f, thread, i as nat))
}

/// Joining the parts that hold the blocks of a file, in block order, gives
/// back the file.
pub proof fn lemma_merge_restores_file(f: Seq<u8>, thread: nat)
    requires
        plan_ok(f.len(), thread),
    ensures
        joined(block_parts(f, thread)) == f,
{
    lemma_blocks_partition(f.len(), thread);
    lemma_joined_prefix(f, thread, thread);
    assert(block_parts(f, thread).subrange(0, thread as int) =~= block_parts(f, thread));
    assert(f.subrange(0, f.len() as int) =~= f);
}

proof fn lemma_joined_prefix(f: Seq<u8>, thread: nat, k: nat)
    requires
        plan_ok(f.len(), thread),
        1 <= k <= thread,
        block_start(f.len(), thread, 0) == 0,
        block_end(f.len(), thread, (thread - 1) as nat) == f.len() - 1,
        forall|i: nat| i + 1 < thread ==> block_start(f.len(), thread, i + 1) == #[trigger] block_end(f.len(), thread, i) + 1,
        forall|i: nat| i < thread ==> block_start(f.len(), thread, i) <= #[trigger] block_end(f.len(), thread, i),
        forall|i: nat| i < thread ==> 0 <= #[trigger] block_start(f.len(), thread, i) && block_end(f.len(), thread, i) <= f.len() - 1,
    ensures
        joined(block_parts(f, thread).subrange(0, k as int)) == f.subrange(0, block_end(f.len(), thread, (k - 1) as nat) + 1),
    decreases k,
{
    let parts = block_parts(f, thread);
    let pre = parts.subrange(0, k as int);
    assert(pre.drop_last() =~= parts.subrange(0, k - 1));
    assert(pre.last() == block_part(f, thread, (k - 1) as nat));
    let e = block_end(f.len(), thread, (k - 1) as nat);
    assert(block_start(f.len(), thread, (k - 1) as nat) <= e);
    if k == 1 {
        assert(pre.drop_last() =~= Seq::<Seq<u8>>::empty());
        assert(joined(Seq::<Seq<u8>>::empty()) == Seq::<u8>::empty());
        assert(joined(pre) =~= Seq::<u8>::empty() + block_part(f, thread, 0));
        assert(joined(pre) =~= f.subrange(0, e + 1));
    } else {
        lemma_joined_prefix(f, thread, (k - 1) as nat);
        let e0 = block_end(f.len(), thread, (k - 2) as nat);
        assert(block_start(f.len(), thread, (k - 1) as nat) == e0 + 1);
        assert(e0 + 1 <= e + 1 <= f.len());
        assert(f.subrange(0, e0 + 1) + f.subrange(e0 + 1, e + 1) =~= f.subrange(0, e + 1));
    }
}

/// The bytes held by all blocks together.
pub open spec fn total_held(held: Seq<u64>) -> nat
    decreases held.len(),
{
    if held.len() == 0 {
        0
    } else {
        total_held(held.drop_last()) + held.last() as nat
    }
}

/// The total held is the sum over every block: adding a block adds what it
/// holds, and the total of two groups of blocks is the sum of their totals.
pub proof fn lemma_total_held_additive(s: Seq<u64>, t: Seq<u64>, x: u64)
    ensures
        total_held(s.push(x)) == total_held(s) + x,
        total_held(s + t) == total_held(s) + total_held(t),
        total_held(Seq::<u64>::empty()) == 0,
    decreases t.len(),
{
    assert(s.push(x).drop_last() =~= s);
    if t.len() > 0 {
        lemma_total_held_additive(s, t.drop_last(), x);
        assert((s + t).drop_last() =~= s + t.drop_last());
    } else {
        assert(s + t =~= s);
    }
}

proof fn lemma_total_held_prefix(held: Seq<u64>, i: int)
    requires
        0 <= i <= held.len(),
    ensures
        total_held(held.subrange(0, i)) <= total_held(held),
    decreases held.len(),
{
    if i < held.len() {
        lemma_total_held_prefix(held.drop_last(), i);
        assert(held.drop_last().subrange(0, i) =~= held.subrange(0, i));
    } else {
        assert(held.subrange(0, i) =~= held);
    }
}

/// The progress of a download from the bytes each block reports it holds:
/// the total held, and whether it reaches the size of the file. `None` when
/// the total does not fit in a `u64`.
pub fn download_progress(held: &Vec<u64>, size: u64) -> (r: Option<(u64, bool)>)
    ensures
        total_held(held@) <= u64::MAX ==> r == Some((total_held(held@) as u64, total_held(held@) >= size)),
        total_held(held@) > u64::MAX ==> r is None,
{
    let mut sum: u64 = 0;
    let mut i: usize = 0;
    assert(held@.subrange(0, 0) =~= Seq::<u64>::empty());
    while i < held.len()
        invariant
            i <= held.len(),
            sum == total_held(held@.subrange(0, i as int)),
        decreases held.len() - i,
    {
        let v = held[i];
        assert(held@.subrange(0, i + 1).drop_last() =~= held@.subrange(0, i as int));
        if sum > u64::MAX - v {
            proof {
                lemma_total_held_prefix(held@, i + 1);
            }
            return None;
        }
        sum = sum + v;
        i = i + 1;
    }
    assert(held@.subrange(0, i as int) =~= held@);
    Some((sum, sum >= size))
}

/// The parts, in order, joined into one.
pub fn merge_parts(parts: &Vec<Vec<u8>>) -> (r: Vec<u8>)
    ensures
        r@ == joined(parts.deep_view()),
{
    let mut out: Vec<u8> = Vec::new();
    let mut i: usize = 0;
    while i < parts.len()
        invariant
            i <= parts.len(),
            out@ == joined(parts.deep_view().subrange(0, i as int)),
        decreases parts.len() - i,
    {
        let part = &parts[i];
        let ghost before = out@;
        let mut j: usize = 0;
        while j < part.len()
            invariant
                j <= part.len(),
                out@ == before + part@.subrange(0, j as int),
            decreases part.len() - j,
        {
            out.push(part[j]);
            j = j + 1;
            assert(out@ =~= before + part@.subrange(0, j as int));
        }
        proof {
            let done = parts.deep_view().subrange(0, i + 1);
            assert(done.drop_last() =~= parts.deep_view().subrange(0, i as int));
            assert(done.last() == part@);
            assert(part@.subrange(0, j as int) =~= part@);
        }
        i = i + 1;
    }
    assert(parts.deep_view().subrange(0, i as int) =~= parts.deep_view());
    out
}

pub struct FileTaskView {
    pub name: Option<Seq<char>>,
    pub tail: Seq<char>,
    pub url: Seq<char>,
    pub headers: Map<Seq<u8>, Seq<Seq<u8>>>,
    pub proxy: Option<Seq<char>>,
    pub thread: u8,
    pub retry: u8,
    pub dir: Seq<char>,
    pub output: Seq<char>,
    pub size: u64,
}

#[derive(Debug)]
pub struct FileTask {
    /// The name to save under; the name in the URL when there is none.
    name: Option<String>,
    /// What the part files' names end in, before the block index.
    tail: String,
    /// The address of the file.
    url: String,
    /// The headers sent with every request.
    pub headers: HeaderMap,
    /// The proxy requests go through.
    proxy: Option<String>,
    /// How many blocks the file is split into.
    thread: u8,
    /// Failed tries each block may make.
    retry: u8,
    /// Where the part files go.
    dir: String,
    /// Where the joined file goes.
    output: String,
    /// Size of the file, once known.
    size: u64,
}

impl View for FileTask {
    type V = FileTaskView;

    closed spec fn view(&self) -> FileTaskView {
        FileTaskView {
            name: opt_text(self.name),
            tail: self.tail@,
            url: self.url@,
            headers: header_entries(self.headers),
            proxy: opt_text(self.proxy),
            thread: self.thread,
            retry: self.retry,
            dir: self.dir@,
            output: self.output@,
            size: self.size,
        }
    }
}

impl FileTask {
    /// A task for `url` with the defaults: no header, no proxy, two threads,
    /// five tries per block, part files ending in `ed<i>`, parts kept in
    /// `dir` and the file saved in `output`.
    pub fn new(url: &str, dir: String, output: String) -> (t: Self)
        ensures
            t@ == (FileTaskView {
                name: None,
                tail: "ed"@,
                url: url@,
                headers: empty_headers(),
                proxy: None,
                thread: DEFAULT_THREADS,
                retry: DEFAULT_RETRY,
                dir: dir@,
                output: output@,
                size: 0,
            }),
            t@.headers.dom().finite(),
    {
        FileTask {
            name: None,
            tail: String::from_str("ed"),
            url: String::from_str(url),
            headers: headers_new(),
            proxy: None,
            thread: DEFAULT_THREADS,
            retry: DEFAULT_RETRY,
            dir,
            output,
            size: 0,
        }
    }

    /// A task with every setting given, as it was saved.
    pub fn restore(
        url: String,
        name: Option<String>,
        tail: String,
        headers: HeaderMap,
        proxy: Option<String>,
        thread: u8,
        retry: u8,
        dir: String,
        output: String,
        size: u64,
    ) -> (t: Self)
        ensures
            t@ == (FileTaskView {
                name: opt_text(name),
                tail: tail@,
                url: url@,
                headers: header_entries(headers),
                proxy: opt_text(proxy),
                thread,
                retry,
                dir: dir@,
                output: output@,
                size,
            }),
    {
        FileTask { name, tail, url, headers, proxy, thread, retry, dir, output, size }
    }

    pub fn set_proxy(&mut self, proxy: &str)
        ensures
            final(self)@ == (FileTaskView { proxy: Some(proxy@), ..old(self)@ }),
    {
        self.proxy = Some(String::from_str(proxy));
    }

    pub fn set_thread(&mut self, thread: u8)
        ensures
            final(self)@ == (FileTaskView { thread, ..old(self)@ }),
    {
        self.thread = thread;
    }

    pub fn set_tail(&mut self, tail: &str)
        ensures
            final(self)@ == (FileTaskView { tail: tail@, ..old(self)@ }),
    {
        self.tail = String::from_str(tail);
    }

    /// The number of header names the task holds; it has room for one more
    /// exactly when the count is below `HEADER_LIMIT`.
    pub fn header_count(&self) -> (n: usize)
        ensures
            n == self@.headers.len(),
            header_room(self@.headers) <==> n < HEADER_LIMIT,
    {
        headers_len(&self.headers)
    }

    /// Sets the header `key` to `value` for every request of the task; as
    /// `FileRequest::insert_header`.
    pub fn insert_header(&mut self, key: &str, value: &str) -> (r: Result<(), HeaderError>)
        requires
            header_room(old(self)@.headers),
        ensures
            header_name(key.spec_bytes()) is None ==> (r is Err && r->Err_0 == HeaderError::InvalidName),
            header_name(key.spec_bytes()) is Some && !header_value_ok(value.spec_bytes()) ==> (r is Err && r->Err_0 == HeaderError::InvalidValue),
            header_name(key.spec_bytes()) is Some && header_value_ok(value.spec_bytes()) ==> r is Ok,
            r is Ok ==> final(self)@ == (FileTaskView {
                headers: old(self)@.headers.insert(header_name(key.spec_bytes())->0, seq![value.spec_bytes()]),
                ..old(self)@
            }),
            r is Err ==> final(self)@ == old(self)@,
    {
        headers_insert(&mut self.headers, key.as_bytes(), value.as_bytes())
    }

    pub fn set_retry(&mut self, retry: u8)
        ensures
            final(self)@ == (FileTaskView { retry, ..old(self)@ }),
    {
        self.retry = retry;
    }

    pub fn set_dir(&mut self, dir: &str)
        ensures
            final(self)@ == (FileTaskView { dir: dir@, ..old(self)@ }),
    {
        self.dir = String::from_str(dir);
    }

    pub fn set_output(&mut self, output: &str)
        ensures
            final(self)@ == (FileTaskView { output: output@, ..old(self)@ }),
    {
        self.output = String::from_str(output);
    }

    /// The name of the file in the URL: the last path segment, without the
    /// query.
    pub fn filename(&self) -> (r: String)
        ensures
            r@ == file_name_of(self@.url),
    {
        let s = self.url.as_str();
        let n = s.unicode_len();
        let mut k: usize = n;
        let mut found = false;
        while k > 0 && !found
            invariant
                k <= n,
                n == s@.len(),
                forall|j: int| k <= j < n ==> s@[j] != '/',
                found ==> (k > 0 && s@[k - 1] == '/'),
            decreases k + (if found { 0int } else { 1int }),
        {
            if s.get_char(k - 1) == '/' {
                found = true;
            } else {
                k = k - 1;
            }
        }
        proof {
            lemma_after_last(s@, '/', k as int);
        }
        let ghost seg = s@.subrange(k as int, n as int);
        let mut q: usize = k;
        let mut stop = false;
        while q < n && !stop
            invariant
                k <= q <= n,
                n == s@.len(),
                forall|j: int| k <= j < q ==> s@[j] != '?',
                stop ==> (q < n && s@[q as int] == '?'),
            decreases n - q + (if stop { 0int } else { 1int }),
        {
            if s.get_char(q) == '?' {
                stop = true;
            } else {
                q = q + 1;
            }
        }
        proof {
            lemma_before_first(seg, '?', q - k);
            assert(seg.subrange(0, q - k) =~= s@.subrange(k as int, q as int));
        }
        String::from_str(s.substring_char(k, q))
    }

    /// The name the file is saved under.
    pub fn get_name(&self) -> (r: String)
        ensures
            r@ == task_name(self@),
    {
        match &self.name {
            Some(n) => n.clone(),
            None => self.filename(),
        }
    }

    pub fn get_size(&self) -> (r: u64)
        ensures
            r == self@.size,
    {
        self.size
    }

    pub fn url(&self) -> (r: &str)
        ensures
            r@ == self@.url,
    {
        self.url.as_str()
    }

    pub fn tail(&self) -> (r: &str)
        ensures
            r@ == self@.tail,
    {
        self.tail.as_str()
    }

    pub fn dir(&self) -> (r: &str)
        ensures
            r@ == self@.dir,
    {
        self.dir.as_str()
    }

    pub fn output(&self) -> (r: &str)
        ensures
            r@ == self@.output,
    {
        self.output.as_str()
    }

    pub fn thread(&self) -> (r: u8)
        ensures
            r == self@.thread,
    {
        self.thread
    }

    pub fn retry(&self) -> (r: u8)
        ensures
            r == self@.retry,
    {
        self.retry
    }

    pub fn name(&self) -> (r: Option<String>)
        ensures
            opt_text(r) == self@.name,
    {
        clone_opt_string(&self.name)
    }

    pub fn proxy(&self) -> (r: Option<String>)
        ensures
            opt_text(r) == self@.proxy,
    {
        clone_opt_string(&self.proxy)
    }

    /// The name of the part file of block `i`: `<name>.<tail><i>`.
    pub fn part_name(&self, i: u8) -> (r: String)
        ensures
            r@ == part_name(self@, i as nat),
    {
        let dot = ".";
        proof {
            reveal_strlit(".");
        }
        let n = self.get_name().concat(dot).concat(self.tail.as_str());
        let digits = decimal_string(i as u64);
        let r = n.concat(digits.as_str());
        assert(r@ =~= part_name(self@, i as nat));
        r
    }

    /// The names of the part files, in block order.
    pub fn part_names(&self) -> (r: Vec<String>)
        ensures
            r@.len() == self@.thread,
            forall|i: int| 0 <= i < r@.len() ==> (#[trigger] r@[i])@ == part_name(self@, i as nat),
    {
        let mut r: Vec<String> = Vec::new();
        let mut i: u8 = 0;
        while i < self.thread
            invariant
                i <= self@.thread,
                r@.len() == i,
                forall|j: int| 0 <= j < r@.len() ==> (#[trigger] r@[j])@ == part_name(self@, j as nat),
            decreases self@.thread - i,
        {
            r.push(self.part_name(i));
            i = i + 1;
        }
        r
    }

    /// The request the task starts from: the task's address, headers and
    /// proxy.
    pub fn base_request(&self) -> (r: FileRequest)
        ensures
            r@ == (FileRequestView { url: self@.url, headers: self@.headers, proxy: self@.proxy }),
    {
        let mut req = FileRequest::new(self.url.as_str());
        req.set_headers(headers_clone(&self.headers));
        match &self.proxy {
            Some(p) => req.set_proxy(p.as_str()),
            None => {},
        }
        req
    }

    /// Splits a file of `size` bytes into the task's blocks: block `i` holds
    /// the bytes from `block_start` to `block_end`, is written to the part
    /// file `part_name(i)` in the task's directory, is fetched with a copy of
    /// `request` and may fail as often as the task allows. The size is
    /// recorded in the task.
    pub fn blocks(&mut self, size: u64, request: &FileRequest) -> (r: Vec<Block>)
        requires
            plan_ok(size as nat, old(self)@.thread as nat),
        ensures
            final(self)@ == (FileTaskView { size, ..old(self)@ }),
            r@.len() == old(self)@.thread,
            forall|i: int| 0 <= i < r@.len() ==> (#[trigger] r@[i])@ == (BlockView {
                start: block_start(size as nat, old(self)@.thread as nat, i as nat) as u64,
                end: block_end(size as nat, old(self)@.thread as nat, i as nat) as u64,
                current: 0,
                dir: old(self)@.dir,
                name: part_name(old(self)@, i as nat),
                retry: 0,
                retry_max: old(self)@.retry,
                request: request@,
                rx_size: PROGRESS_BUFFER,
            }),
    {
        self.size = size;
        let mut r: Vec<Block> = Vec::new();
        let mut i: u8 = 0;
        while i < self.thread
            invariant
                self@ == (FileTaskView { size, ..old(self)@ }),
                plan_ok(size as nat, self@.thread as nat),
                i <= self@.thread,
                r@.len() == i,
                forall|j: int| 0 <= j < r@.len() ==> (#[trigger] r@[j])@ == (BlockView {
                    start: block_start(size as nat, old(self)@.thread as nat, j as nat) as u64,
                    end: block_end(size as nat, old(self)@.thread as nat, j as nat) as u64,
                    current: 0,
                    dir: old(self)@.dir,
                    name: part_name(old(self)@, j as nat),
                    retry: 0,
                    retry_max: old(self)@.retry,
                    request: request@,
                    rx_size: PROGRESS_BUFFER,
                }),
            decreases self@.thread - i,
        {
            let (start, end) = block_range(size, self.thread, i);
            let name = self.part_name(i);
            assert(task_name(self@) == task_name(old(self)@));
            let block = Block::new(start, end, self.dir.clone(), name, self.retry, request.clone());
            r.push(block);
            i = i + 1;
        }
        r
    }
}

} // verus!
