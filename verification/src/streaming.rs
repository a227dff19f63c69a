//! Streaming tasks: channel names, progress texts and the chunks of large transfers
//! that a long-running operation emits.
use vstd::prelude::*;
use base64::Engine;
use crate::json::{json_object, json_string_object, member_views, string_object, value_object};
use crate::param_map::pair_views;
use crate::text::{decimal, decimal_string, push_str, string_from};
use vstd::string::StringSliceAdditionalSpecFns;

verus! {

/// The standard (RFC 4648, padded) base64 text of some bytes.
pub uninterp spec fn base64_standard(bytes: Seq<u8>) -> Seq<char>;

/// `base64::engine::general_purpose::STANDARD.encode`: the contract claims only that the
/// text is a function of the bytes.
#[verifier::external_body]
fn encode_base64(bytes: &[u8]) -> (r: String)
    ensures
        r@ == base64_standard(bytes@),
{
    base64::engine::general_purpose::STANDARD.encode(bytes)
}

/// A lowercase hexadecimal digit.
pub open spec fn is_lower_hex(c: char) -> bool {
    ('0' <= c && c <= '9') || ('a' <= c && c <= 'f')
}

/// The shape of a hyphenated version-4 UUID: 36 characters, hyphens at positions 8, 13,
/// 18 and 23, lowercase hexadecimal digits elsewhere, the version digit `4` at position
/// 14 and one of `8`, `9`, `a`, `b` (the variant) at position 19.
pub open spec fn uuid_shaped(s: Seq<char>) -> bool {
    &&& s.len() == 36
    &&& forall|i: int|
        0 <= i < 36 ==> if i == 8 || i == 13 || i == 18 || i == 23 {
            s[i] == '-'
        } else {
            is_lower_hex(#[trigger] s[i])
        }
    &&& s[14] == '4'
    &&& (s[19] == '8' || s[19] == '9' || s[19] == 'a' || s[19] == 'b')
}

/// A fresh random task id: `uuid::Uuid::new_v4()` written as text. The uuid crate sets
/// the version and variant bits and writes the id hyphenated in lowercase hexadecimal
/// (`uuid_shaped`); the other digits are random, and nothing more is claimed of them.
#[verifier::external_body]
fn random_task_id() -> (r: String)
    ensures
        uuid_shaped(r@),
{
    uuid::Uuid::new_v4().to_string()
}

/// A copy of `data[lo..hi]`.
fn byte_range(data: &[u8], lo: usize, hi: usize) -> (r: Vec<u8>)
    requires
        lo <= hi <= data@.len(),
    ensures
        r@ == data@.subrange(lo as int, hi as int),
{
    let mut r: Vec<u8> = Vec::new();
    let mut k = lo;
    while k < hi
        invariant
            lo <= k <= hi <= data@.len(),
            r@ == data@.subrange(lo as int, k as int),
        decreases hi - k,
    {
        r.push(data[k]);
        assert(data@.subrange(lo as int, k + 1) =~= data@.subrange(lo as int, k as int).push(data@[k as int]));
        k += 1;
    }
    r
}

/// Data chunk for large transfers.
#[derive(Debug, Clone)]
pub struct StreamingChunk {
    /// Position of the chunk, from 0
    pub index: usize,
    /// Base64 encoded or plain text
    pub data: String,
    /// Number of chunks in the transfer, when known
    pub total_chunks: Option<usize>,
}

/// The meaning of a chunk.
pub struct ChunkView {
    pub index: usize,
    pub data: Seq<char>,
    pub total_chunks: Option<usize>,
}

impl View for StreamingChunk {
    type V = ChunkView;

    open spec fn view(&self) -> ChunkView {
        ChunkView { index: self.index, data: self.data@, total_chunks: self.total_chunks }
    }
}

/// The number of chunks of `size` bytes that `len` bytes make (the last may be shorter).
pub open spec fn chunk_count(len: nat, size: nat) -> nat {
    ((len + size - 1) / (size as int)) as nat
}

/// The bytes of chunk `i`.
pub open spec fn chunk_bytes(data: Seq<u8>, size: nat, i: nat) -> Seq<u8> {
    let lo = i * size;
    let hi: int = if (i + 1) * size <= data.len() { ((i + 1) * size) as int } else { data.len() as int };
    data.subrange(lo as int, hi as int)
}

/// The chunks of `data`: chunk `i` carries the base64 text of bytes `i*size` up to
/// `(i+1)*size` (or the end), its index, and the number of chunks.
pub open spec fn chunks_of(data: Seq<u8>, size: nat, chunks: Seq<ChunkView>) -> bool {
    &&& chunks.len() == chunk_count(data.len(), size)
    &&& forall|i: int|
        0 <= i < chunks.len() ==> {
            &&& (#[trigger] chunks[i]).index == i
            &&& chunks[i].data == base64_standard(chunk_bytes(data, size, i as nat))
            &&& chunks[i].total_chunks == Some(chunk_count(data.len(), size) as usize)
        }
}

/// The views of a sequence of chunks.
pub open spec fn chunk_views(cs: Seq<StreamingChunk>) -> Seq<ChunkView> {
    cs.map_values(|c: StreamingChunk| c@)
}

/// The channel `task:<id>:<kind>` of a task's events.
pub open spec fn task_channel(task_id: Seq<char>, kind: Seq<char>) -> Seq<char> {
    "task:"@ + task_id + ":"@ + kind
}

/// The progress text `Processing item <current>/<total>`.
pub open spec fn item_message_text(current: u64, total: u64) -> Seq<char> {
    "Processing item "@ + decimal(current as nat) + "/"@ + decimal(total as nat)
}

/// The error text `Failed at item <current>: <error>`.
pub open spec fn failure_message_text(current: u64, error: Seq<char>) -> Seq<char> {
    "Failed at item "@ + decimal(current as nat) + ": "@ + error
}

/// `n` is the rounded-up quotient of `len` by `size` when `n` chunks of `size` just cover
/// `len`.
proof fn lemma_ceil_div(len: int, size: int, n: int)
    by (nonlinear_arith)
    requires
        size > 0,
        n >= 0,
        n * size >= len,
        n * size < len + size,
    ensures
        (len + size - 1) / size == n,
{
}

/// Streaming task handle: the id under which a long-running operation emits progress,
/// chunks, completion and errors.
pub struct StreamingTask {
    pub task_id: String,
}

impl StreamingTask {
    /// Create a new streaming task with a unique (random) ID.
    pub fn new() -> (r: Self)
        ensures
            uuid_shaped(r.task_id@),
    {
        StreamingTask { task_id: random_task_id() }
    }

    /// Create a streaming task with a specific ID.
    pub fn with_id(task_id: String) -> (r: Self)
        ensures
            r.task_id@ == task_id@,
    {
        StreamingTask { task_id }
    }

    /// The channel `task:<id>:<kind>`.
    fn channel(&self, kind: &str) -> (r: String)
        ensures
            r@ == task_channel(self.task_id@, kind@),
    {
        let mut r = string_from("task:");
        push_str(&mut r, self.task_id.as_str());
        push_str(&mut r, ":");
        push_str(&mut r, kind);
        r
    }

    /// The channel of progress updates: `task:<id>:progress`.
    pub fn progress_channel(&self) -> (r: String)
        ensures
            r@ == task_channel(self.task_id@, "progress"@),
    {
        self.channel("progress")
    }

    /// The channel of data chunks: `task:<id>:chunk`.
    pub fn chunk_channel(&self) -> (r: String)
        ensures
            r@ == task_channel(self.task_id@, "chunk"@),
    {
        self.channel("chunk")
    }

    /// The channel of completion: `task:<id>:complete`.
    pub fn complete_channel(&self) -> (r: String)
        ensures
            r@ == task_channel(self.task_id@, "complete"@),
    {
        self.channel("complete")
    }

    /// The channel of errors: `task:<id>:error`.
    pub fn error_channel(&self) -> (r: String)
        ensures
            r@ == task_channel(self.task_id@, "error"@),
    {
        self.channel("error")
    }

    /// The data of an error event: `{"message": message}`.
    pub fn error_data(message: &str) -> (r: serde_json::Value)
        ensures
            r == json_string_object(seq![("message"@, message@)]),
    {
        let mut pairs: Vec<(String, String)> = Vec::new();
        pairs.push((string_from("message"), string_from(message)));
        assert(pair_views(pairs@) =~= seq![("message"@, message@)]);
        string_object(pairs)
    }

    /// The data of a completion event: `{"result": result}`.
    pub fn complete_data(result: serde_json::Value) -> (r: serde_json::Value)
        ensures
            r == json_object(seq![("result"@, result)]),
    {
        let mut members: Vec<(String, serde_json::Value)> = Vec::new();
        members.push((string_from("result"), result));
        assert(member_views(members@) =~= seq![("result"@, result)]);
        value_object(members)
    }

    /// Get initial response for task initiation:
    /// `{"task_id": <id>, "message": "Task started"}`.
    pub fn initial_response(&self) -> (r: serde_json::Value)
        ensures
            r == json_string_object(seq![("task_id"@, self.task_id@), ("message"@, "Task started"@)]),
    {
        let mut pairs: Vec<(String, String)> = Vec::new();
        pairs.push((string_from("task_id"), self.task_id.clone()));
        pairs.push((string_from("message"), string_from("Task started")));
        assert(pair_views(pairs@) =~= seq![("task_id"@, self.task_id@), ("message"@, "Task started"@)]);
        string_object(pairs)
    }

    /// The progress text for item `current` of `total`.
    pub fn item_message(current: u64, total: u64) -> (r: String)
        ensures
            r@ == item_message_text(current, total),
    {
        let mut r = string_from("Processing item ");
        push_str(&mut r, decimal_string(current).as_str());
        push_str(&mut r, "/");
        push_str(&mut r, decimal_string(total).as_str());
        r
    }

    /// The error text for a failure at item `current`.
    pub fn failure_message(current: u64, error: &str) -> (r: String)
        ensures
            r@ == failure_message_text(current, error@),
    {
        let mut r = string_from("Failed at item ");
        push_str(&mut r, decimal_string(current).as_str());
        push_str(&mut r, ": ");
        push_str(&mut r, error);
        r
    }

    /// The chunks in which `data` is emitted, `chunk_size` bytes each (the last may be
    /// shorter), base64-encoded.
    pub fn chunked_data(data: &[u8], chunk_size: usize) -> (r: Vec<StreamingChunk>)
        requires
            chunk_size > 0,
            data@.len() + chunk_size - 1 <= usize::MAX,
        ensures
            chunks_of(data@, chunk_size as nat, chunk_views(r@)),
    {
        let len = data.len();
        let total = (len + (chunk_size - 1)) / chunk_size;
        let mut out: Vec<StreamingChunk> = Vec::new();
        let mut pos: usize = 0;
        let mut i: usize = 0;
        while pos < len
            invariant
                len == data@.len(),
                chunk_size > 0,
                len + chunk_size - 1 <= usize::MAX,
                total == chunk_count(len as nat, chunk_size as nat),
                pos == i * chunk_size,
                pos <= len + chunk_size,
                i <= pos,
                i == 0 || (i - 1) * chunk_size < len,
                out@.len() == i,
                forall|j: int|
                    0 <= j < i ==> {
                        &&& (#[trigger] chunk_views(out@)[j]).index == j
                        &&& chunk_views(out@)[j].data == base64_standard(chunk_bytes(data@, chunk_size as nat, j as nat))
                        &&& chunk_views(out@)[j].total_chunks == Some(total)
                    },
            decreases len + chunk_size - pos,
        {
            let end = if len - pos > chunk_size { pos + chunk_size } else { len };
            proof {
                assert((i + 1) * chunk_size == i * chunk_size + chunk_size) by (nonlinear_arith);
            }
            let piece = byte_range(data, pos, end);
            assert(piece@ == chunk_bytes(data@, chunk_size as nat, i as nat));
            let chunk = StreamingChunk { index: i, data: encode_base64(piece.as_slice()), total_chunks: Some(total) };
            proof {
                assert(chunk_views(out@.push(chunk)) =~= chunk_views(out@).push(chunk@));
            }
            out.push(chunk);
            pos = pos + chunk_size;
            i = i + 1;
            assert(pos == i * chunk_size) by (nonlinear_arith)
                requires
                    pos == (i - 1) * chunk_size + chunk_size,
            ;
            assert(i <= pos) by (nonlinear_arith)
                requires
                    pos == i * chunk_size,
                    chunk_size > 0,
                    i >= 0,
            ;
        }
        proof {
            if i > 0 {
                assert(i * chunk_size == (i - 1) * chunk_size + chunk_size) by (nonlinear_arith);
            }
            lemma_ceil_div(len as int, chunk_size as int, i as int);
        }
        out
    }

    /// The chunks in which the UTF-8 bytes of `data` are emitted.
    pub fn chunked_string(data: &str, chunk_size: usize) -> (r: Vec<StreamingChunk>)
        requires
            chunk_size > 0,
            data.spec_bytes().len() + chunk_size - 1 <= usize::MAX,
        ensures
            chunks_of(data.spec_bytes(), chunk_size as nat, chunk_views(r@)),
    {
        StreamingTask::chunked_data(data.as_bytes(), chunk_size)
    }
}

/// What a run over items does after one item: keep its result and go on, or stop with an
/// error event (its message) and the item's error.
pub enum ItemStep<R> {
    Keep(R),
    Fail { message: String, error: String },
}

impl StreamingTask {
    /// The progress report before item `index` of `count` items: the item's number
    /// (counted from 1), the number of items, and `Processing item <number>/<count>`.
    pub fn item_report(index: usize, count: usize) -> (r: (u64, u64, String))
        requires
            index < count,
        ensures
            r.0 == index + 1,
            r.1 == count,
            r.2@ == item_message_text(r.0, r.1),
    {
        let current = index as u64 + 1;
        let total = count as u64;
        (current, total, StreamingTask::item_message(current, total))
    }

    /// The decision after item `index` of `count` items: a result is kept; an error stops
    /// the run with the error event's message `Failed at item <number>: <error>` and the
    /// error itself.
    pub fn item_step<R>(index: usize, count: usize, outcome: Result<R, String>) -> (r: ItemStep<R>)
        requires
            index < count,
        ensures
            match outcome {
                Ok(v) => r == ItemStep::Keep(v),
                Err(e) => r matches ItemStep::Fail { message, error } && message@ == failure_message_text(
                    (index + 1) as u64,
                    e@,
                ) && error@ == e@,
            },
    {
        match outcome {
            Ok(v) => ItemStep::Keep(v),
            Err(e) => {
                let message = StreamingTask::failure_message(index as u64 + 1, e.as_str());
                ItemStep::Fail { message, error: e }
            },
        }
    }
}

impl Default for StreamingTask {
    /// A new task with a fresh random id (see `StreamingTask::new`).
    fn default() -> (r: Self)
        ensures
            uuid_shaped(r.task_id@),
    {
        StreamingTask::new()
    }
}

/// The bytes of the first `n` chunks, in order.
pub open spec fn joined_chunks(data: Seq<u8>, size: nat, n: nat) -> Seq<u8>
    decreases n,
{
    if n == 0 {
        seq![]
    } else {
        joined_chunks(data, size, (n - 1) as nat) + chunk_bytes(data, size, (n - 1) as nat)
    }
}

/// The chunks cover the data, and the last chunk starts inside it.
proof fn lemma_chunk_count_bounds(len: nat, size: nat)
    by (nonlinear_arith)
    requires
        size > 0,
    ensures
        chunk_count(len, size) * size >= len,
        chunk_count(len, size) == 0 || (chunk_count(len, size) - 1) * size < len,
{
}

/// The first `n` chunks joined are the data up to the end of chunk `n - 1`.
proof fn lemma_joined_prefix(data: Seq<u8>, size: nat, n: nat)
    requires
        size > 0,
        n == 0 || (n - 1) * size < data.len(),
    ensures
        joined_chunks(data, size, n) == data.take(if n * size <= data.len() { (n * size) as int } else { data.len() as int }),
    decreases n,
{
    if n > 0 {
        let m = (n - 1) as nat;
        assert(n * size == m * size + size) by (nonlinear_arith)
            requires
                m == n - 1,
        ;
        if m > 0 {
            assert((m - 1) * size < m * size) by (nonlinear_arith)
                requires
                    size > 0,
                    m > 0,
            ;
        }
        lemma_joined_prefix(data, size, m);
        assert(m * size <= data.len());
        assert(joined_chunks(data, size, n) =~= data.take(
            if n * size <= data.len() { (n * size) as int } else { data.len() as int },
        ));
    }
}

/// The chunks of a transfer, joined in order, give back the data.
pub proof fn law_chunks_rejoin(data: Seq<u8>, size: nat)
    requires
        size > 0,
    ensures
        joined_chunks(data, size, chunk_count(data.len(), size)) == data,
{
    let n = chunk_count(data.len(), size);
    lemma_chunk_count_bounds(data.len(), size);
    lemma_joined_prefix(data, size, n);
    assert(data.take(data.len() as int) =~= data);
}

} // verus!
