//! The copy loop: a source is cut into chunks, each chunk is written to the
//! codec sink, and progress is reported after every one of them.

use vstd::prelude::*;
use crate::codec::CodecSink;
use crate::codec::SinkState;
use crate::codec::accepts_all;
use crate::codec::agree;
use crate::codec::at_end;
use crate::codec::gunzip_stream;
use crate::codec::is_member;
use crate::codec::viable;
use crate::codec::within_member;
use crate::codec::gzip_stream;
use crate::codec::lemma_accepts_prefix;
use crate::config::CompressionLevel;
use crate::config::TransferConfig;
use crate::error::TransferError;
use crate::session::Action;
use crate::session::Event;
use crate::session::Stage;
use crate::session::TransferSession;

verus! {

/// The chunks in which the copy loop moves `data`: consecutive pieces of
/// `size` bytes, of which only the last may be shorter.
pub open spec fn chunks_of(data: Seq<u8>, size: nat) -> Seq<Seq<u8>>
    decreases data.len(),
{
    if data.len() == 0 || size == 0 {
        Seq::empty()
    } else if data.len() <= size {
        seq![data]
    } else {
        seq![data.take(size as int)] + chunks_of(data.skip(size as int), size)
    }
}

/// The progress reported while `chunks` are moved: after each chunk, the
/// number of bytes moved so far.
pub open spec fn running_totals(chunks: Seq<Seq<u8>>) -> Seq<u64> {
    Seq::new(chunks.len(), |i: int| chunks.take(i + 1).flatten().len() as u64)
}

/// Whatever the chunk size, the chunks put together again are the data, no
/// chunk is empty and none is longer than the chunk size.
pub proof fn lemma_chunks_rebuild(data: Seq<u8>, size: nat)
    requires
        size >= 1,
    ensures
        chunks_of(data, size).flatten() == data,
        forall|i: int|
            0 <= i < chunks_of(data, size).len() ==> 1 <= (#[trigger] chunks_of(data, size)[i]).len()
                <= size,
    decreases data.len(),
{
    let chunks = chunks_of(data, size);
    if data.len() == 0 {
        assert(chunks.flatten() == data);
    } else if data.len() <= size {
        chunks.lemma_flatten_one_element();
    } else {
        let head = data.take(size as int);
        let rest = chunks_of(data.skip(size as int), size);
        lemma_chunks_rebuild(data.skip(size as int), size);
        seq![head].lemma_flatten_one_element();
        vstd::seq_lib::lemma_flatten_concat(seq![head], rest);
        assert(head + data.skip(size as int) == data);
        assert forall|i: int| 0 <= i < chunks.len() implies 1 <= (#[trigger] chunks[i]).len()
            <= size by {
            if i > 0 {
                assert(chunks[i] == rest[i - 1]);
            }
        }
    }
}

/// The bytes that reach the sink do not depend on the chunk size: for any two
/// sizes, the chunks put together are the same sequence.
pub proof fn lemma_chunking_invariance(data: Seq<u8>, first: nat, second: nat)
    requires
        first >= 1,
        second >= 1,
    ensures
        chunks_of(data, first).flatten() == chunks_of(data, second).flatten(),
{
    lemma_chunks_rebuild(data, first);
    lemma_chunks_rebuild(data, second);
}

/// Progress never goes down, never exceeds the number of bytes in the
/// chunks, and the last report is that number.
pub proof fn lemma_running_totals_grow(chunks: Seq<Seq<u8>>)
    requires
        chunks.flatten().len() <= u64::MAX,
    ensures
        forall|i: int, j: int|
            0 <= i <= j < chunks.len() ==> running_totals(chunks)[i] <= running_totals(chunks)[j],
        forall|i: int|
            0 <= i < chunks.len() ==> (#[trigger] running_totals(chunks)[i]) <= chunks.flatten().len(),
        chunks.len() > 0 ==> running_totals(chunks).last() == chunks.flatten().len(),
{
    assert forall|i: int, j: int| 0 <= i <= j <= chunks.len() implies chunks.take(i).flatten().len()
        <= chunks.take(j).flatten().len() by {
        lemma_prefix_total_grows(chunks, i, j);
    }
    assert(chunks.take(chunks.len() as int) == chunks);
    assert forall|i: int| 0 <= i < chunks.len() implies (#[trigger] running_totals(chunks)[i])
        <= chunks.flatten().len() by {
        lemma_prefix_total_grows(chunks, i + 1, chunks.len() as int);
    }
    assert forall|i: int, j: int| 0 <= i <= j < chunks.len() implies running_totals(chunks)[i]
        <= running_totals(chunks)[j] by {
        lemma_prefix_total_grows(chunks, i + 1, j + 1);
        lemma_prefix_total_grows(chunks, j + 1, chunks.len() as int);
    }
}

proof fn lemma_prefix_total_grows(chunks: Seq<Seq<u8>>, i: int, j: int)
    requires
        0 <= i <= j <= chunks.len(),
    ensures
        chunks.take(i).flatten().len() <= chunks.take(j).flatten().len(),
    decreases j - i,
{
    if i < j {
        lemma_prefix_total_grows(chunks, i, j - 1);
        assert(chunks.take(j) == chunks.take(j - 1).push(chunks[j - 1]));
        chunks.take(j - 1).lemma_flatten_push(chunks[j - 1]);
    }
}

/// The progress reports of a transfer of `chunks`: the running totals where
/// progress is reported, and none where it is not.
pub open spec fn expected_reports(chunks: Seq<Seq<u8>>, report_progress: bool) -> Seq<u64> {
    if report_progress {
        running_totals(chunks)
    } else {
        Seq::empty()
    }
}

/// What is owed of the progress reports of a transfer that wrote `written`
/// bytes to its sink: they never decrease, none exceeds `written`, and the
/// last of them is `written`.
pub open spec fn sound_progress(reports: Seq<u64>, written: nat) -> bool {
    &&& forall|i: int, j: int| 0 <= i <= j < reports.len() ==> reports[i] <= reports[j]
    &&& forall|i: int| 0 <= i < reports.len() ==> (#[trigger] reports[i]) <= written
    &&& reports.len() > 0 ==> reports.last() == written
}

/// The order in which the stages of one round of the copy loop follow each
/// other, counted down.
spec fn stage_rank(stage: Stage) -> nat {
    match stage {
        Stage::Reporting => 3,
        Stage::Reading => 2,
        Stage::Writing { .. } => 1,
        _ => 0,
    }
}

proof fn lemma_running_totals_push(chunks: Seq<Seq<u8>>, chunk: Seq<u8>)
    ensures
        running_totals(chunks.push(chunk)) == running_totals(chunks).push(
            chunks.push(chunk).flatten().len() as u64,
        ),
{
    let longer = chunks.push(chunk);
    let pushed = running_totals(chunks).push(longer.flatten().len() as u64);
    assert(longer.take(longer.len() as int) == longer);
    assert forall|i: int| 0 <= i < longer.len() implies running_totals(longer)[i] == pushed[i] by {
        if i < chunks.len() {
            assert(longer.take(i + 1) =~= chunks.take(i + 1));
        }
    }
    assert(running_totals(longer) =~= pushed);
}

/// What a completed transfer hands back.
#[derive(Debug)]
pub struct Transfer {
    /// Everything that came out of the sink, in order.
    pub output: Vec<u8>,
    /// The progress reports, in the order in which they were made.
    pub reports: Vec<u64>,
    /// The number of bytes that were written to the sink.
    pub bytes_transferred: u64,
    /// Whether the gzip member ended before the input did, so that what
    /// followed it was ignored. Never so when compressing.
    pub input_left: bool,
}

/// What came out of a transfer, as the sink's state speaks of it.
pub open spec fn outcome_of(r: Result<Transfer, TransferError>) -> Result<
    (Seq<u8>, bool),
    TransferError,
> {
    match r {
        Ok(t) => Ok((t.output@, t.input_left)),
        Err(error) => Err(error),
    }
}

/// Whether a decoder that has taken `consumed` finds the end of a gzip
/// member in `data`: what it has taken, with some beginning of `data` behind
/// it, is a whole member.
pub open spec fn holds_member(consumed: Seq<u8>, data: Seq<u8>) -> bool {
    exists|k: int| 0 <= k <= data.len() && #[trigger] is_member(consumed + data.take(k))
}

/// Whether `result` is the outcome of writing `chunks`, which put together
/// are `data`, to a sink in the state `start` one by one and finishing it.
///
/// An encoder succeeds exactly if it accepts every chunk and can be
/// finished. What has come out of it in all is then the whole gzip stream of
/// all that was written to it, and no input is left.
///
/// A decoder succeeds exactly if a gzip member ends in `data`; if the member
/// had ended before, exactly if what the decoder had taken is a member. What
/// has come out of it in all is then the decompressed stream of that member,
/// and input is left exactly if the member ends before `data` does. Into
/// which chunks `data` was cut makes no difference to any of this.
///
/// A poisoned sink fails with the error that poisoned it.
pub open spec fn delivers(
    start: SinkState,
    chunks: Seq<Seq<u8>>,
    data: Seq<u8>,
    result: Result<(Seq<u8>, bool), TransferError>,
) -> bool {
    match start {
        SinkState::Encoding { level, input, emitted } => {
            if accepts_all(level, input, chunks) && gzip_stream(level, input + chunks) is Some {
                &&& result matches Ok((out, input_left))
                &&& !input_left
                &&& emitted + out == gzip_stream(level, input + chunks).unwrap()
            } else {
                result == Err::<(Seq<u8>, bool), TransferError>(TransferError::WriteError)
            }
        },
        SinkState::Decoding { consumed, emitted, ended } => {
            if ended {
                if is_member(consumed) {
                    &&& result matches Ok((out, input_left))
                    &&& input_left
                    &&& gunzip_stream(consumed) == Some(emitted + out)
                } else {
                    result == Err::<(Seq<u8>, bool), TransferError>(TransferError::CodecError)
                }
            } else if holds_member(consumed, data) {
                &&& result matches Ok((out, input_left))
                &&& forall|k: int|
                    0 <= k <= data.len() && #[trigger] is_member(consumed + data.take(k)) ==> {
                        &&& gunzip_stream(consumed + data.take(k)) == Some(emitted + out)
                        &&& input_left == (k < data.len())
                    }
            } else {
                result == Err::<(Seq<u8>, bool), TransferError>(TransferError::CodecError)
            }
        },
        SinkState::Poisoned { error } => result == Err::<(Seq<u8>, bool), TransferError>(error),
    }
}

/// The outcome of a transfer through a fresh decoder does not depend on the
/// chunk size: whether it succeeds, what it hands back and whether input is
/// left are the same, into whatever chunks the data is cut.
pub proof fn lemma_decoded_output_ignores_chunking(
    data: Seq<u8>,
    first: nat,
    second: nat,
    one: Result<(Seq<u8>, bool), TransferError>,
    other: Result<(Seq<u8>, bool), TransferError>,
)
    requires
        delivers(
            SinkState::Decoding { consumed: Seq::empty(), emitted: Seq::empty(), ended: false },
            chunks_of(data, first),
            data,
            one,
        ),
        delivers(
            SinkState::Decoding { consumed: Seq::empty(), emitted: Seq::empty(), ended: false },
            chunks_of(data, second),
            data,
            other,
        ),
    ensures
        one == other,
{
    let empty = Seq::<u8>::empty();
    if holds_member(empty, data) {
        let k = choose|k: int| 0 <= k <= data.len() && #[trigger] is_member(empty + data.take(k));
        assert(empty + one.unwrap().0 == one.unwrap().0);
        assert(empty + other.unwrap().0 == other.unwrap().0);
    }
}

/// How the state `now` of a sink relates to the state `start` in which a
/// transfer found it, once the chunks `done`, which are the first `pos`
/// bytes of `data`, have been written and `out` has come out. Of those
/// bytes a decoder has taken the first `taken`.
spec fn tracks(
    start: SinkState,
    now: SinkState,
    done: Seq<Seq<u8>>,
    data: Seq<u8>,
    pos: int,
    out: Seq<u8>,
    taken: int,
) -> bool {
    match start {
        SinkState::Encoding { level, input, emitted } => {
            &&& accepts_all(level, input, done)
            &&& now == SinkState::Encoding { level, input: input + done, emitted: emitted + out }
        },
        SinkState::Decoding { consumed, emitted, ended } => {
            &&& 0 <= taken <= pos
            &&& now matches SinkState::Decoding { consumed: c, emitted: e, ended: en }
            &&& c == consumed + data.take(taken)
            &&& e == emitted + out
            &&& if ended {
                en && taken == 0
            } else {
                &&& !en ==> taken == pos
                &&& en ==> taken < pos && at_end(c)
                &&& forall|k: int|
                    0 <= k <= data.len() && #[trigger] is_member(consumed + data.take(k)) ==> taken
                        <= k
            }
        },
        SinkState::Poisoned { .. } => now == start && done.len() == 0,
    }
}

/// Whether the gzip member has ended in a sink.
spec fn member_ended(s: SinkState) -> bool {
    s matches SinkState::Decoding { ended, .. } && ended
}

/// What stands before `data.take(k)` in a sequence is a beginning of what
/// stands before `data.take(m)` for a larger `m`.
proof fn lemma_take_grows(head: Seq<u8>, data: Seq<u8>, k: int, m: int)
    requires
        0 <= k <= m <= data.len(),
    ensures
        (head + data.take(k)).is_prefix_of(head + data.take(m)),
        (head + data.take(k)).len() == head.len() + k,
{
    assert((head + data.take(k)) =~= (head + data.take(m)).subrange(0, head.len() + k));
}

proof fn lemma_tracks_write(
    start: SinkState,
    before: SinkState,
    after: SinkState,
    done: Seq<Seq<u8>>,
    data: Seq<u8>,
    pos: int,
    len: int,
    out: Seq<u8>,
    more: Seq<u8>,
    taken: int,
) -> (now_taken: int)
    requires
        tracks(start, before, done, data, pos, out, taken),
        0 <= pos,
        0 <= len,
        pos + len <= data.len(),
        before.writes(data.subrange(pos, pos + len), after, more),
    ensures
        tracks(
            start,
            after,
            done.push(data.subrange(pos, pos + len)),
            data,
            pos + len,
            out + more,
            now_taken,
        ),
        after.failure() == start.failure(),
{
    let chunk = data.subrange(pos, pos + len);
    assert(done.push(chunk).drop_last() == done);
    match start {
        SinkState::Encoding { level, input, emitted } => {
            assert((input + done).push(chunk) == input + done.push(chunk));
            assert((emitted + out) + more == emitted + (out + more));
            taken
        },
        SinkState::Decoding { consumed, emitted, ended } => {
            let c = before->Decoding_consumed;
            let e = before->Decoding_emitted;
            assert((emitted + out) + more == emitted + (out + more));
            if before->Decoding_ended {
                assert(out + more == out);
                taken
            } else {
                let t = choose|t: int|
                    #![trigger chunk.take(t)]
                    {
                        &&& 0 <= t <= chunk.len()
                        &&& after == SinkState::Decoding {
                            consumed: c + chunk.take(t),
                            emitted: e + more,
                            ended: t < chunk.len(),
                        }
                        &&& within_member(c, chunk, t)
                        &&& t < chunk.len() ==> at_end(c + chunk.take(t))
                    };
                assert(data.take(pos) + chunk.take(t) == data.take(pos + t));
                assert((consumed + data.take(pos)) + chunk.take(t) == consumed + data.take(pos + t));
                assert(data.take(pos) + chunk == data.take(pos + len));
                assert(c + chunk == consumed + data.take(pos + len));
                assert forall|k: int|
                    0 <= k <= data.len() && #[trigger] is_member(
                        consumed + data.take(k),
                    ) implies pos + t <= k by {
                    let s = consumed + data.take(k);
                    lemma_take_grows(consumed, data, pos, k);
                    if k <= pos + len {
                        lemma_take_grows(consumed, data, k, pos + len);
                    } else {
                        lemma_take_grows(consumed, data, pos + len, k);
                    }
                }
                pos + t
            }
        },
        SinkState::Poisoned { .. } => taken,
    }
}

proof fn lemma_tracks_reject(
    start: SinkState,
    before: SinkState,
    done: Seq<Seq<u8>>,
    data: Seq<u8>,
    pos: int,
    len: int,
    out: Seq<u8>,
    taken: int,
    rest: Seq<Seq<u8>>,
)
    requires
        tracks(start, before, done, data, pos, out, taken),
        0 <= pos,
        0 <= len,
        pos + len <= data.len(),
        before.may_reject(data.subrange(pos, pos + len)),
    ensures
        before.failure() == start.failure(),
        delivers(
            start,
            done.push(data.subrange(pos, pos + len)) + rest,
            data,
            Err::<(Seq<u8>, bool), TransferError>(start.failure()),
        ),
{
    let chunk = data.subrange(pos, pos + len);
    match start {
        SinkState::Encoding { level, input, emitted } => {
            let chunks = done.push(chunk) + rest;
            assert(done.push(chunk).drop_last() == done);
            if accepts_all(level, input, chunks) {
                lemma_accepts_prefix(level, input, done.push(chunk), rest);
            }
        },
        SinkState::Decoding { consumed, emitted, ended } => {
            let c = before->Decoding_consumed;
            assert(data.take(pos) + chunk == data.take(pos + len));
            assert(c + chunk == consumed + data.take(pos + len));
            if holds_member(consumed, data) {
                let k = choose|k: int|
                    0 <= k <= data.len() && #[trigger] is_member(consumed + data.take(k));
                if k <= pos + len {
                    lemma_take_grows(consumed, data, k, pos + len);
                } else {
                    lemma_take_grows(consumed, data, pos + len, k);
                }
                assert(agree(c + chunk, consumed + data.take(k)));
                assert(viable(c + chunk));
            }
        },
        SinkState::Poisoned { .. } => {},
    }
}

proof fn lemma_tracks_finish(
    start: SinkState,
    now: SinkState,
    chunks: Seq<Seq<u8>>,
    data: Seq<u8>,
    out: Seq<u8>,
    taken: int,
    last: Seq<u8>,
)
    requires
        tracks(start, now, chunks, data, data.len() as int, out, taken),
    ensures
        now.failure() == start.failure(),
        now.whole() is None ==> delivers(
            start,
            chunks,
            data,
            Err::<(Seq<u8>, bool), TransferError>(start.failure()),
        ),
        now.whole() matches Some(whole) && now.emitted() + last == whole ==> delivers(
            start,
            chunks,
            data,
            Ok::<(Seq<u8>, bool), TransferError>((out + last, member_ended(now))),
        ),
{
    match start {
        SinkState::Encoding { level, input, emitted } => {
            assert((emitted + out) + last == emitted + (out + last));
        },
        SinkState::Decoding { consumed, emitted, ended } => {
            let c = now->Decoding_consumed;
            let en = now->Decoding_ended;
            assert((emitted + out) + last == emitted + (out + last));
            if ended {
                assert(data.take(0) == Seq::<u8>::empty());
                assert(consumed + data.take(0) == consumed);
            } else {
                assert forall|k: int|
                    0 <= k <= data.len() && #[trigger] is_member(
                        consumed + data.take(k),
                    ) implies consumed + data.take(k) == c && en == (k < data.len()) by {
                    lemma_take_grows(consumed, data, taken, k);
                    if !en {
                        assert(k == taken);
                    }
                }
                if is_member(c) {
                    assert(is_member(consumed + data.take(taken)));
                }
            }
        },
        SinkState::Poisoned { .. } => {},
    }
}

/// Moves `input` into `sink` in chunks and finishes the sink.
///
/// The sink is written the chunks of `input`, in order, so it receives every
/// byte of `input` exactly once. The result holds what came out of it. If the
/// sink rejects a chunk or cannot be finished, the transfer fails with the
/// sink's error and what had come out is dropped.
pub fn transfer(input: &[u8], sink: CodecSink, config: TransferConfig) -> (r: Result<
    Transfer,
    TransferError,
>)
    requires
        sink.wf(),
    ensures
        delivers(sink@, chunks_of(input@, config.chunk() as nat), input@, outcome_of(r)),
        r matches Err(error) ==> error == sink@.failure(),
        r matches Ok(t) ==> {
            &&& t.bytes_transferred == input@.len()
            &&& t.reports@ == expected_reports(
                chunks_of(input@, config.chunk() as nat),
                config.reports(),
            )
            &&& sound_progress(t.reports@, input@.len())
        },
{
    let ghost start = sink@;
    let ghost size = config.chunk() as nat;
    let ghost chunks = chunks_of(input@, size);
    let _ = config.chunk_size();
    let mut sink = sink;
    let length: usize = input.len();
    let total: u64 = length as u64;
    let mut session = TransferSession::new(config);
    let mut action = session.step(Event::Opened { total_size: total });
    let mut pos: usize = 0;
    let mut output: Vec<u8> = Vec::new();
    let mut reports: Vec<u64> = Vec::new();
    let ghost mut done: Seq<Seq<u8>> = Seq::empty();
    let ghost mut taken: int = 0;
    proof {
        assert(input@.skip(0) == input@);
        assert(done + chunks == chunks);
        assert(input@.take(0) == Seq::<u8>::empty());
        match start {
            SinkState::Encoding { level, input, emitted } => {
                assert(input + done == input);
                assert(emitted + output@ == emitted);
            },
            SinkState::Decoding { consumed, emitted, ended } => {
                assert(consumed + Seq::<u8>::empty() == consumed);
                assert(emitted + output@ == emitted);
            },
            SinkState::Poisoned { .. } => {},
        }
    }
    loop
        invariant
            size == config.chunk(),
            size >= 1,
            chunks == chunks_of(input@, size),
            total == input@.len(),
            length == input@.len(),
            session@.chunk_size == config.chunk(),
            session@.report_progress == config.reports(),
            session@.total_size == total,
            session@.transferred == pos,
            action == session@.pending(),
            !(session@.stage is Idle) && !(session@.stage is Completed),
            pos <= input@.len(),
            sink.wf(),
            !(session@.stage is Failed) ==> {
                &&& chunks == done + chunks_of(input@.skip(pos as int), size)
                &&& tracks(start, sink@, done, input@, pos as int, output@, taken)
                &&& done.flatten().len() == pos
                &&& reports@ == if session@.stage is Reporting {
                    expected_reports(done.drop_last(), config.reports())
                } else {
                    expected_reports(done, config.reports())
                }
            },
            session@.stage is Reporting ==> done.len() > 0 && config.reports(),
            session@.stage matches Stage::Writing { len } ==> {
                &&& 1 <= len
                &&& pos + len <= input@.len()
                &&& chunks_of(input@.skip(pos as int), size) == seq![
                    input@.subrange(pos as int, pos + len),
                ] + chunks_of(input@.skip(pos + len), size)
            },
            session@.stage is Flushing ==> pos == input@.len(),
            session@.stage matches Stage::Failed { error } ==> {
                &&& delivers(
                    start,
                    chunks,
                    input@,
                    Err::<(Seq<u8>, bool), TransferError>(error),
                )
                &&& error == start.failure()
            },
        ensures
            action is Flush || action is Abort,
        decreases input@.len() - pos, stage_rank(session@.stage),
    {
        match action {
            Action::Read { limit } => {
                let left: usize = length - pos;
                let len: usize = if left < limit {
                    left
                } else {
                    limit
                };
                proof {
                    let rest = input@.skip(pos as int);
                    if len > 0 {
                        if rest.len() <= size {
                            assert(rest == input@.subrange(pos as int, pos + len));
                            assert(input@.skip(pos + len).len() == 0);
                            assert(chunks_of(rest, size) == seq![rest] + Seq::<Seq<u8>>::empty());
                        } else {
                            assert(rest.take(size as int) == input@.subrange(
                                pos as int,
                                pos + len,
                            ));
                            assert(rest.skip(size as int) == input@.skip(pos + len));
                        }
                    }
                }
                action = session.step(Event::ChunkRead { len });
            },
            Action::Write { len } => {
                let chunk = &input[pos..pos + len];
                let ghost before = sink@;
                let ghost rest = chunks_of(input@.skip(pos + len), size);
                proof {
                    assert(done + (seq![chunk@] + rest) == done.push(chunk@) + rest);
                }
                match sink.write(chunk) {
                    Ok(mut bytes) => {
                        proof {
                            taken = lemma_tracks_write(
                                start,
                                before,
                                sink@,
                                done,
                                input@,
                                pos as int,
                                len as int,
                                output@,
                                bytes@,
                                taken,
                            );
                            done.lemma_flatten_push(chunk@);
                            assert(done.push(chunk@).drop_last() == done);
                            done = done.push(chunk@);
                        }
                        output.append(&mut bytes);
                        pos = pos + len;
                        action = session.step(Event::ChunkWritten);
                    },
                    Err(error) => {
                        proof {
                            lemma_tracks_reject(
                                start,
                                before,
                                done,
                                input@,
                                pos as int,
                                len as int,
                                output@,
                                taken,
                                rest,
                            );
                        }
                        action = session.step(Event::Failed { error });
                    },
                }
            },
            Action::Report { transferred, .. } => {
                proof {
                    assert(done.drop_last().push(done.last()) == done);
                    lemma_running_totals_push(done.drop_last(), done.last());
                }
                reports.push(transferred);
                action = session.step(Event::Reported);
            },
            _ => {
                break ;
            },
        }
    }
    match action {
        Action::Abort { error } => Err(error),
        _ => {
            let input_left = sink.member_ended();
            proof {
                assert(chunks == done + Seq::<Seq<u8>>::empty());
                assert(chunks == done);
                lemma_chunks_rebuild(input@, size);
                lemma_running_totals_grow(chunks);
            }
            let ghost now = sink@;
            match sink.finish() {
                Ok(mut bytes) => {
                    proof {
                        lemma_tracks_finish(start, now, chunks, input@, output@, taken, bytes@);
                    }
                    output.append(&mut bytes);
                    let _ = session.step(Event::Flushed);
                    Ok(
                        Transfer {
                            output,
                            reports,
                            bytes_transferred: session.bytes_transferred(),
                            input_left,
                        },
                    )
                },
                Err(error) => {
                    proof {
                        lemma_tracks_finish(start, now, chunks, input@, output@, taken, Seq::empty());
                    }
                    let _ = session.step(Event::Failed { error });
                    Err(error)
                },
            }
        },
    }
}

/// The gzip stream that comes out when `data` is compressed at `level` in
/// chunks of `size` bytes, or `None` where the encoder reports an error.
pub open spec fn gzip_of(data: Seq<u8>, level: u32, size: nat) -> Option<Seq<u8>> {
    if accepts_all(level, Seq::empty(), chunks_of(data, size)) {
        gzip_stream(level, chunks_of(data, size))
    } else {
        None
    }
}

/// Compresses `input` to a gzip stream.
///
/// Fails with a write error if the encoder reports one.
pub fn compress_bytes(input: &[u8], level: CompressionLevel, config: TransferConfig) -> (r: Result<
    Transfer,
    TransferError,
>)
    ensures
        match gzip_of(input@, level.value(), config.chunk() as nat) {
            Some(stream) => {
                &&& r matches Ok(t)
                &&& t.output@ == stream
                &&& !t.input_left
            },
            None => r is Err && r.unwrap_err() == TransferError::WriteError,
        },
        r matches Ok(t) ==> {
            &&& t.bytes_transferred == input@.len()
            &&& t.reports@ == expected_reports(
                chunks_of(input@, config.chunk() as nat),
                config.reports(),
            )
            &&& sound_progress(t.reports@, input@.len())
        },
{
    let r = transfer(input, CodecSink::encoder(level), config);
    proof {
        let chunks = chunks_of(input@, config.chunk() as nat);
        assert(Seq::<Seq<u8>>::empty() + chunks == chunks);
        if r is Ok {
            assert(Seq::<u8>::empty() + r.unwrap().output@ == r.unwrap().output@);
        }
    }
    r
}

/// Whether `data` begins with a whole gzip member.
pub open spec fn begins_with_member(data: Seq<u8>) -> bool {
    exists|k: int| 0 <= k <= data.len() && #[trigger] is_member(data.take(k))
}

/// Decompresses the gzip stream `input`.
///
/// Succeeds exactly if `input` begins with a whole gzip member, and hands
/// back the decompressed stream of that member, whatever the chunk size.
/// Whatever follows the member is ignored, and the result says whether
/// anything did. Fails with a codec error otherwise: if `input` is not gzip,
/// is cut short, or does not match its checksum.
pub fn decompress_bytes(input: &[u8], config: TransferConfig) -> (r: Result<Transfer, TransferError>)
    ensures
        r is Ok <==> begins_with_member(input@),
        r matches Ok(t) ==> forall|k: int|
            0 <= k <= input@.len() && #[trigger] is_member(input@.take(k)) ==> {
                &&& gunzip_stream(input@.take(k)) == Some(t.output@)
                &&& t.input_left == (k < input@.len())
            },
        r matches Err(error) ==> error == TransferError::CodecError,
        r matches Ok(t) ==> {
            &&& t.bytes_transferred == input@.len()
            &&& t.reports@ == expected_reports(
                chunks_of(input@, config.chunk() as nat),
                config.reports(),
            )
            &&& sound_progress(t.reports@, input@.len())
        },
{
    let r = transfer(input, CodecSink::decoder(), config);
    proof {
        let empty = Seq::<u8>::empty();
        assert forall|k: int| 0 <= k <= input@.len() implies #[trigger] (empty + input@.take(k))
            == input@.take(k) by {
            assert(empty + input@.take(k) =~= input@.take(k));
        }
        if begins_with_member(input@) {
            let k = choose|k: int| 0 <= k <= input@.len() && #[trigger] is_member(input@.take(k));
            assert(is_member(empty + input@.take(k)));
        }
        if holds_member(empty, input@) {
            let k = choose|k: int|
                0 <= k <= input@.len() && #[trigger] is_member(empty + input@.take(k));
            assert(is_member(input@.take(k)));
        }
        if r is Ok {
            let t = r.unwrap();
            assert(empty + t.output@ == t.output@);
            assert forall|k: int|
                0 <= k <= input@.len() && #[trigger] is_member(input@.take(k)) implies gunzip_stream(
                input@.take(k),
            ) == Some(t.output@) && t.input_left == (k < input@.len()) by {
                assert(is_member(empty + input@.take(k)));
            }
        }
    }
    r
}

} // verus!
