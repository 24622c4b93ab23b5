//! The gzip codec as a sink: what is written to it comes out compressed or
//! decompressed.
//!
//! The codec itself is the `flate2` crate. This module declares the parts of
//! it that the library calls, states what is taken on trust about them, and
//! builds [`CodecSink`] on top.

use vstd::prelude::*;
use flate2::write::GzDecoder;
use flate2::write::GzEncoder;
use flate2::Compression;
use std::io::Write;
use crate::config::CompressionLevel;
use crate::config::MAX_LEVEL;
use crate::error::TransferError;

verus! {

/// A `flate2::write::GzEncoder` that hands what it produces to a vector that
/// it owns. The encoder is bound by `std::io::Write`, a trait that the
/// verifier does not know, so it is kept in a struct of which the verifier
/// sees nothing.
#[verifier::external_body]
pub struct RawEncoder {
    inner: GzEncoder<Vec<u8>>,
}

/// A `flate2::write::GzDecoder` that hands what it produces to a vector that
/// it owns, kept out of the verifier's sight for the same reason.
#[verifier::external_body]
pub struct RawDecoder {
    inner: GzDecoder<Vec<u8>>,
}

/// `std::io::Error`, the error of every fallible call below.
#[verifier::external_type_specification]
#[verifier::external_body]
pub struct ExIoError(std::io::Error);

/// The compression level that an encoder was made with.
pub uninterp spec fn gz_encoder_level(e: RawEncoder) -> u32;

/// The chunks that have been written to an encoder since it was made, in
/// order.
pub uninterp spec fn gz_encoder_input(e: RawEncoder) -> Seq<Seq<u8>>;

/// All the bytes that an encoder has handed to its vector since it was made,
/// in order, whether or not they still lie there.
pub uninterp spec fn gz_encoder_emitted(e: RawEncoder) -> Seq<u8>;

/// The bytes that lie in the vector owned by an encoder.
pub uninterp spec fn gz_encoder_output(e: RawEncoder) -> Seq<u8>;

/// Whether `write_all` of `chunk` succeeds on an encoder of the given level
/// to which the chunks `before` have been written.
pub uninterp spec fn gzip_accepts(level: u32, before: Seq<Seq<u8>>, chunk: Seq<u8>) -> bool;

/// The whole gzip stream of an encoder of the given level to which the chunks
/// `input` have been written and which is then finished: `None` if `finish`
/// reports an error.
pub uninterp spec fn gzip_stream(level: u32, input: Seq<Seq<u8>>) -> Option<Seq<u8>>;

/// The bytes that a decoder has taken since it was made, in order.
pub uninterp spec fn gz_decoder_consumed(d: RawDecoder) -> Seq<u8>;

/// All the bytes that a decoder has handed to its vector since it was made,
/// in order, whether or not they still lie there.
pub uninterp spec fn gz_decoder_emitted(d: RawDecoder) -> Seq<u8>;

/// The bytes that lie in the vector owned by a decoder.
pub uninterp spec fn gz_decoder_output(d: RawDecoder) -> Seq<u8>;

/// Everything that comes out of a decoder which has taken the bytes
/// `consumed` and is then finished: `None` if `finish` reports an error.
pub uninterp spec fn gunzip_stream(consumed: Seq<u8>) -> Option<Seq<u8>>;

/// Whether `stream` is one whole gzip member: a decoder that has taken
/// exactly these bytes can be finished.
pub open spec fn is_member(stream: Seq<u8>) -> bool {
    gunzip_stream(stream) is Some
}

/// Whether one of the two sequences is the beginning of the other.
pub open spec fn agree(a: Seq<u8>, b: Seq<u8>) -> bool {
    a.is_prefix_of(b) || b.is_prefix_of(a)
}

/// Whether `bytes` can still come to a good end: they are the beginning of a
/// gzip member, or they begin with one.
pub open spec fn viable(bytes: Seq<u8>) -> bool {
    exists|s: Seq<u8>| #[trigger] is_member(s) && agree(bytes, s)
}

/// Whether a decoder that has taken `consumed` stays within the gzip member
/// when it takes the first `taken` bytes of `buf`: it goes past the end of
/// no member that `consumed` begins and that ends within `buf`.
pub open spec fn within_member(consumed: Seq<u8>, buf: Seq<u8>, taken: int) -> bool {
    forall|s: Seq<u8>|
        #[trigger] is_member(s) && consumed.is_prefix_of(s) && s.is_prefix_of(consumed + buf)
            ==> consumed.len() + taken <= s.len()
}

/// Whether no gzip member goes on beyond `consumed`: a member that begins
/// with these bytes is these bytes.
pub open spec fn at_end(consumed: Seq<u8>) -> bool {
    forall|s: Seq<u8>| #[trigger] is_member(s) && consumed.is_prefix_of(s) ==> s == consumed
}

/// Calls `flate2::write::GzEncoder::new` on an empty vector.
///
/// Trusted: the encoder remembers the level, has been written nothing and
/// has handed nothing to its vector, because the gzip header is held back
/// until the first write. Levels above 9 are left out; the crate asserts on
/// some of them.
#[verifier::external_body]
fn gz_encoder_new(level: u32) -> (e: RawEncoder)
    requires
        level <= MAX_LEVEL,
    ensures
        gz_encoder_level(e) == level,
        gz_encoder_input(e) == Seq::<Seq<u8>>::empty(),
        gz_encoder_emitted(e) == Seq::<u8>::empty(),
        gz_encoder_output(e) == Seq::<u8>::empty(),
{
    RawEncoder { inner: GzEncoder::new(Vec::new(), Compression::new(level)) }
}

/// Calls `std::io::Write::write_all` on a `flate2::write::GzEncoder`.
///
/// Trusted: whether the call succeeds depends only on the level, on the
/// chunks written before and on this chunk. After a success the chunk has
/// joined the encoder's input, and what the encoder handed to its vector
/// during the call was added at the end of the vector. How much that is is
/// left open: the encoder keeps back what it likes. No encoder held by this
/// library has been finished, which is the one state in which the crate
/// asserts.
#[verifier::external_body]
fn gz_encoder_write_all(e: &mut RawEncoder, chunk: &[u8]) -> (r: Result<
    (),
    std::io::Error,
>)
    ensures
        r is Ok <==> gzip_accepts(gz_encoder_level(*old(e)), gz_encoder_input(*old(e)), chunk@),
        r is Ok ==> gz_encoder_level(*final(e)) == gz_encoder_level(*old(e)),
        r is Ok ==> gz_encoder_input(*final(e)) == gz_encoder_input(*old(e)).push(chunk@),
        r is Ok ==> gz_encoder_emitted(*old(e)).is_prefix_of(gz_encoder_emitted(*final(e))),
        r is Ok ==> gz_encoder_output(*final(e)) == gz_encoder_output(*old(e))
            + gz_encoder_emitted(*final(e)).skip(gz_encoder_emitted(*old(e)).len() as int),
{
    e.inner.write_all(chunk)
}

/// Calls `flate2::write::GzEncoder::get_mut` and takes the vector's contents
/// with `std::mem::take`, as the documentation of `get_mut` describes.
///
/// Trusted: the bytes that lay in the vector are returned, the vector is
/// left empty, and the encoder is otherwise as it was.
#[verifier::external_body]
fn gz_encoder_take(e: &mut RawEncoder) -> (out: Vec<u8>)
    ensures
        out@ == gz_encoder_output(*old(e)),
        gz_encoder_output(*final(e)) == Seq::<u8>::empty(),
        gz_encoder_level(*final(e)) == gz_encoder_level(*old(e)),
        gz_encoder_input(*final(e)) == gz_encoder_input(*old(e)),
        gz_encoder_emitted(*final(e)) == gz_encoder_emitted(*old(e)),
{
    std::mem::take(e.inner.get_mut())
}

/// Calls `flate2::write::GzEncoder::finish`.
///
/// Trusted: whether the call succeeds, and what the whole stream then is,
/// depends only on the level and on the chunks that were written. What the
/// encoder had handed to its vector is the beginning of that stream; the
/// call adds the rest at the end of the vector and returns the vector.
#[verifier::external_body]
fn gz_encoder_finish(e: RawEncoder) -> (r: Result<Vec<u8>, std::io::Error>)
    ensures
        r is Ok <==> gzip_stream(gz_encoder_level(e), gz_encoder_input(e)) is Some,
        r is Ok ==> gz_encoder_emitted(e).is_prefix_of(
            gzip_stream(gz_encoder_level(e), gz_encoder_input(e)).unwrap(),
        ),
        r matches Ok(out) ==> out@ == gz_encoder_output(e) + gzip_stream(
            gz_encoder_level(e),
            gz_encoder_input(e),
        ).unwrap().skip(gz_encoder_emitted(e).len() as int),
{
    e.inner.finish()
}

/// Calls `flate2::write::GzDecoder::new` on an empty vector.
///
/// Trusted: the decoder has taken nothing and has handed nothing to its
/// vector.
#[verifier::external_body]
fn gz_decoder_new() -> (d: RawDecoder)
    ensures
        gz_decoder_consumed(d) == Seq::<u8>::empty(),
        gz_decoder_emitted(d) == Seq::<u8>::empty(),
        gz_decoder_output(d) == Seq::<u8>::empty(),
{
    RawDecoder { inner: GzDecoder::new(Vec::new()) }
}

/// Calls `std::io::Write::write` on a `flate2::write::GzDecoder`.
///
/// Trusted, of a call that succeeds: the number it returns is at most the
/// length of the buffer, the decoder has taken that many bytes from the front
/// of the buffer, and what it handed to its vector during the call was added
/// at the end of the vector. As the crate documents, the decoder takes bytes
/// up to the end of the gzip member and none beyond it, and it takes nothing
/// of a buffer that is not empty only once the member has ended.
///
/// Trusted, of a call that fails: the bytes taken so far, followed by this
/// buffer, neither begin a gzip member nor begin with one. The decoder reads
/// its input as one stream of bytes, however it is cut into buffers, and
/// rejects only what no member can hold.
///
/// How many bytes a call takes and how much it hands on is left open.
#[verifier::external_body]
fn gz_decoder_write(d: &mut RawDecoder, buf: &[u8]) -> (r: Result<usize, std::io::Error>)
    ensures
        r matches Ok(n) ==> n <= buf@.len(),
        r matches Ok(n) ==> gz_decoder_consumed(*final(d)) == gz_decoder_consumed(*old(d))
            + buf@.take(n as int),
        r is Ok ==> gz_decoder_emitted(*old(d)).is_prefix_of(gz_decoder_emitted(*final(d))),
        r is Ok ==> gz_decoder_output(*final(d)) == gz_decoder_output(*old(d))
            + gz_decoder_emitted(*final(d)).skip(gz_decoder_emitted(*old(d)).len() as int),
        r matches Ok(n) ==> within_member(gz_decoder_consumed(*old(d)), buf@, n as int),
        r matches Ok(n) ==> (n == 0 && buf@.len() > 0 ==> at_end(gz_decoder_consumed(*old(d)))),
        r is Err ==> !viable(gz_decoder_consumed(*old(d)) + buf@),
{
    d.inner.write(buf)
}

/// Calls `flate2::write::GzDecoder::get_mut` and takes the vector's contents
/// with `std::mem::take`, as the documentation of `get_mut` describes.
///
/// Trusted: the bytes that lay in the vector are returned, the vector is
/// left empty, and the decoder is otherwise as it was.
#[verifier::external_body]
fn gz_decoder_take(d: &mut RawDecoder) -> (out: Vec<u8>)
    ensures
        out@ == gz_decoder_output(*old(d)),
        gz_decoder_output(*final(d)) == Seq::<u8>::empty(),
        gz_decoder_consumed(*final(d)) == gz_decoder_consumed(*old(d)),
        gz_decoder_emitted(*final(d)) == gz_decoder_emitted(*old(d)),
{
    std::mem::take(d.inner.get_mut())
}

/// Calls `flate2::write::GzDecoder::finish`.
///
/// Trusted: whether the call succeeds, and what has then come out of the
/// decoder in all, depends only on the bytes that the decoder has taken.
/// What the decoder had handed to its vector is the beginning of that; the
/// call adds the rest at the end of the vector and returns the vector.
#[verifier::external_body]
fn gz_decoder_finish(d: RawDecoder) -> (r: Result<Vec<u8>, std::io::Error>)
    ensures
        r is Ok <==> gunzip_stream(gz_decoder_consumed(d)) is Some,
        r is Ok ==> gz_decoder_emitted(d).is_prefix_of(
            gunzip_stream(gz_decoder_consumed(d)).unwrap(),
        ),
        r matches Ok(out) ==> out@ == gz_decoder_output(d) + gunzip_stream(
            gz_decoder_consumed(d),
        ).unwrap().skip(gz_decoder_emitted(d).len() as int),
{
    d.inner.finish()
}

/// What a codec sink is doing, and what has passed through it.
pub ghost enum SinkState {
    /// Compressing at `level`. The chunks `input` have been written, and the
    /// bytes `emitted` have come out.
    Encoding { level: u32, input: Seq<Seq<u8>>, emitted: Seq<u8> },
    /// Decompressing. The decoder has taken the bytes `consumed`, and the
    /// bytes `emitted` have come out. Once the gzip member has `ended`,
    /// whatever else is written is ignored.
    Decoding { consumed: Seq<u8>, emitted: Seq<u8>, ended: bool },
    /// The codec reported `error`, and the sink is of no further use.
    Poisoned { error: TransferError },
}

/// Whether an encoder of the given level to which the chunks `before` have
/// been written accepts each of `chunks` in turn.
pub open spec fn accepts_all(level: u32, before: Seq<Seq<u8>>, chunks: Seq<Seq<u8>>) -> bool
    decreases chunks.len(),
{
    chunks.len() == 0 || (accepts_all(level, before, chunks.drop_last()) && gzip_accepts(
        level,
        before + chunks.drop_last(),
        chunks.last(),
    ))
}

impl SinkState {
    /// The error with which an operation on the sink fails, if it does:
    /// a write error when compressing, a codec error when decompressing, and
    /// the first error over again once the sink is poisoned.
    pub open spec fn failure(self) -> TransferError {
        match self {
            SinkState::Encoding { .. } => TransferError::WriteError,
            SinkState::Decoding { .. } => TransferError::CodecError,
            SinkState::Poisoned { error } => error,
        }
    }

    /// Whether a write of `chunk` that hands back `out` may leave the sink in
    /// the state `after`.
    ///
    /// An encoder has to accept the chunk, and takes all of it. A decoder
    /// takes the chunk from the front as far as the gzip member goes and no
    /// further: all of it, unless the member has ended. Once the member has
    /// ended a write changes nothing and hands back nothing.
    pub open spec fn writes(self, chunk: Seq<u8>, after: SinkState, out: Seq<u8>) -> bool {
        match self {
            SinkState::Encoding { level, input, emitted } => {
                &&& gzip_accepts(level, input, chunk)
                &&& after == SinkState::Encoding {
                    level,
                    input: input.push(chunk),
                    emitted: emitted + out,
                }
            },
            SinkState::Decoding { consumed, emitted, ended } => if ended {
                after == self && out.len() == 0
            } else {
                exists|taken: int|
                    #![trigger chunk.take(taken)]
                    {
                        &&& 0 <= taken <= chunk.len()
                        &&& after == SinkState::Decoding {
                            consumed: consumed + chunk.take(taken),
                            emitted: emitted + out,
                            ended: taken < chunk.len(),
                        }
                        &&& within_member(consumed, chunk, taken)
                        &&& taken < chunk.len() ==> at_end(consumed + chunk.take(taken))
                    }
            },
            SinkState::Poisoned { .. } => false,
        }
    }

    /// Whether a write of `chunk` may fail: on an encoder if it does not
    /// accept the chunk; on a decoder if the gzip member has not ended and
    /// what the decoder has taken, followed by the chunk, neither begins a
    /// gzip member nor begins with one; and on a poisoned sink always.
    pub open spec fn may_reject(self, chunk: Seq<u8>) -> bool {
        match self {
            SinkState::Encoding { level, input, .. } => !gzip_accepts(level, input, chunk),
            SinkState::Decoding { consumed, ended, .. } => !ended && !viable(consumed + chunk),
            SinkState::Poisoned { .. } => true,
        }
    }

    /// Everything that will have come out of the sink once it is finished, or
    /// `None` where finishing fails.
    pub open spec fn whole(self) -> Option<Seq<u8>> {
        match self {
            SinkState::Encoding { level, input, .. } => gzip_stream(level, input),
            SinkState::Decoding { consumed, .. } => gunzip_stream(consumed),
            SinkState::Poisoned { .. } => None,
        }
    }

    /// What has come out of the sink so far.
    pub open spec fn emitted(self) -> Seq<u8> {
        match self {
            SinkState::Encoding { emitted, .. } => emitted,
            SinkState::Decoding { emitted, .. } => emitted,
            SinkState::Poisoned { .. } => Seq::empty(),
        }
    }
}

enum Codec {
    Encoder(RawEncoder),
    Decoder(RawDecoder),
}

/// A sink that compresses or decompresses what is written to it and hands
/// back what comes out, chunk by chunk.
pub struct CodecSink {
    codec: Codec,
    ended: bool,
    poisoned: Option<TransferError>,
}

impl View for CodecSink {
    type V = SinkState;

    closed spec fn view(&self) -> SinkState {
        match self.poisoned {
            Some(error) => SinkState::Poisoned { error },
            None => self.codec.state(self.ended),
        }
    }
}

/// In a sequence of which `a` is the beginning of `b` and `b` of `c`, `a` is
/// the beginning of `c`, and what follows it is what follows it in `b` and
/// then what follows `b` in `c`.
proof fn lemma_prefix_chain(a: Seq<u8>, b: Seq<u8>, c: Seq<u8>)
    requires
        a.is_prefix_of(b),
        b.is_prefix_of(c),
    ensures
        a.is_prefix_of(c),
        b.skip(a.len() as int) + c.skip(b.len() as int) == c.skip(a.len() as int),
        a + b.skip(a.len() as int) == b,
{
    assert(a.is_prefix_of(c));
    assert(b.skip(a.len() as int) + c.skip(b.len() as int) =~= c.skip(a.len() as int));
    assert(a + b.skip(a.len() as int) =~= b);
}

/// Of two beginnings of one sequence, the shorter is a beginning of the
/// longer.
pub proof fn lemma_prefixes_agree(a: Seq<u8>, b: Seq<u8>, whole: Seq<u8>)
    requires
        a.is_prefix_of(whole),
        b.is_prefix_of(whole),
        a.len() <= b.len(),
    ensures
        a.is_prefix_of(b),
{
    assert(a =~= b.subrange(0, a.len() as int));
}

/// Hands `rest` to the decoder until nothing of it is left or the gzip
/// member has ended. Returns whether it has ended, and how many bytes of
/// `rest` the decoder took.
fn drive_decoder(d: &mut RawDecoder, rest: &[u8]) -> (r: Result<
    (bool, Ghost<int>),
    TransferError,
>)
    ensures
        r matches Ok((ended, taken)) ==> {
            &&& 0 <= taken@ <= rest@.len()
            &&& ended == (taken@ < rest@.len())
            &&& gz_decoder_consumed(*final(d)) == gz_decoder_consumed(*old(d)) + rest@.take(
                taken@,
            )
            &&& gz_decoder_emitted(*old(d)).is_prefix_of(gz_decoder_emitted(*final(d)))
            &&& gz_decoder_output(*final(d)) == gz_decoder_output(*old(d)) + gz_decoder_emitted(
                *final(d),
            ).skip(gz_decoder_emitted(*old(d)).len() as int)
            &&& within_member(gz_decoder_consumed(*old(d)), rest@, taken@)
            &&& ended ==> at_end(gz_decoder_consumed(*final(d)))
        },
        r matches Err(error) ==> error == TransferError::CodecError && !viable(
            gz_decoder_consumed(*old(d)) + rest@,
        ),
{
    let mut pos: usize = 0;
    let mut ended = false;
    let ghost start = gz_decoder_consumed(*d);
    proof {
        assert(start + rest@.take(0) == start);
        assert(gz_decoder_output(*d) + gz_decoder_emitted(*d).skip(
            gz_decoder_emitted(*d).len() as int,
        ) == gz_decoder_output(*d));
    }
    while pos < rest.len() && !ended
        invariant
            pos <= rest.len(),
            ended ==> pos < rest.len(),
            start == gz_decoder_consumed(*old(d)),
            gz_decoder_consumed(*d) == start + rest@.take(pos as int),
            gz_decoder_emitted(*old(d)).is_prefix_of(gz_decoder_emitted(*d)),
            gz_decoder_output(*d) == gz_decoder_output(*old(d)) + gz_decoder_emitted(*d).skip(
                gz_decoder_emitted(*old(d)).len() as int,
            ),
            within_member(start, rest@, pos as int),
            ended ==> at_end(gz_decoder_consumed(*d)),
        decreases rest.len() - pos, if ended { 0int } else { 1int },
    {
        let ghost emitted = gz_decoder_emitted(*d);
        let ghost consumed = gz_decoder_consumed(*d);
        let buf = &rest[pos..rest.len()];
        proof {
            assert(rest@.take(pos as int) + buf@ == rest@);
            assert(consumed + buf@ == start + rest@);
        }
        match gz_decoder_write(d, buf) {
            Ok(taken) => {
                proof {
                    lemma_prefix_chain(
                        gz_decoder_emitted(*old(d)),
                        emitted,
                        gz_decoder_emitted(*d),
                    );
                    assert(rest@.take(pos as int) + buf@.take(taken as int) == rest@.take(
                        pos + taken,
                    ));
                    assert forall|s: Seq<u8>|
                        #[trigger] is_member(s) && start.is_prefix_of(s) && s.is_prefix_of(
                            start + rest@,
                        ) implies start.len() + pos + taken <= s.len() by {
                        lemma_prefixes_agree(consumed, s, start + rest@);
                    }
                }
                if taken == 0 {
                    ended = true;
                } else {
                    pos = pos + taken;
                }
            },
            Err(_) => {
                return Err(TransferError::CodecError);
            },
        }
    }
    Ok((ended, Ghost(pos as int)))
}

impl Codec {
    /// What the codec stands for while it is in working order.
    spec fn state(self, ended: bool) -> SinkState {
        match self {
            Codec::Encoder(e) => SinkState::Encoding {
                level: gz_encoder_level(e),
                input: gz_encoder_input(e),
                emitted: gz_encoder_emitted(e),
            },
            Codec::Decoder(d) => SinkState::Decoding {
                consumed: gz_decoder_consumed(d),
                emitted: gz_decoder_emitted(d),
                ended,
            },
        }
    }

    /// The bytes that the codec has produced and not yet handed on.
    spec fn output(self) -> Seq<u8> {
        match self {
            Codec::Encoder(e) => gz_encoder_output(e),
            Codec::Decoder(d) => gz_decoder_output(d),
        }
    }

    /// Writes `chunk` to the codec and takes out what it produced. Returns
    /// that together with whether the gzip member has ended.
    fn feed(&mut self, ended: bool, chunk: &[u8]) -> (r: Result<(Vec<u8>, bool), TransferError>)
        requires
            old(self).output() == Seq::<u8>::empty(),
        ensures
            final(self).output() == Seq::<u8>::empty(),
            r matches Ok((out, now_ended)) ==> old(self).state(ended).writes(
                chunk@,
                final(self).state(now_ended),
                out@,
            ),
            r matches Err(error) ==> error == old(self).state(ended).failure() && old(self).state(
                ended,
            ).may_reject(chunk@),
    {
        match self {
            Codec::Encoder(e) => {
                let ghost before = gz_encoder_emitted(*e);
                match gz_encoder_write_all(e, chunk) {
                    Ok(()) => {
                        let out = gz_encoder_take(e);
                        proof {
                            let after = gz_encoder_emitted(*e);
                            lemma_prefix_chain(before, after, after);
                            assert(Seq::<u8>::empty() + after.skip(before.len() as int) == out@);
                        }
                        Ok((out, ended))
                    },
                    Err(_) => {
                        let _ = gz_encoder_take(e);
                        Err(TransferError::WriteError)
                    },
                }
            },
            Codec::Decoder(d) => {
                if ended {
                    Ok((Vec::new(), true))
                } else {
                    let ghost before = gz_decoder_emitted(*d);
                    let ghost consumed = gz_decoder_consumed(*d);
                    match drive_decoder(d, chunk) {
                        Ok((now_ended, taken)) => {
                            let out = gz_decoder_take(d);
                            proof {
                                let after = gz_decoder_emitted(*d);
                                lemma_prefix_chain(before, after, after);
                                assert(Seq::<u8>::empty() + after.skip(before.len() as int) == out@);
                                assert(0 <= taken@ <= chunk@.len() && Codec::Decoder(*d).state(
                                    now_ended,
                                ) == SinkState::Decoding {
                                    consumed: consumed + chunk@.take(taken@),
                                    emitted: before + out@,
                                    ended: taken@ < chunk@.len(),
                                } && within_member(consumed, chunk@, taken@) && (taken@
                                    < chunk@.len() ==> at_end(consumed + chunk@.take(taken@))));
                            }
                            Ok((out, now_ended))
                        },
                        Err(error) => {
                            let _ = gz_decoder_take(d);
                            Err(error)
                        },
                    }
                }
            },
        }
    }
}

impl CodecSink {
    /// Whether the sink is in order: everything that the codec has produced
    /// has been handed on. The constructors establish this and every method
    /// keeps it.
    pub closed spec fn wf(self) -> bool {
        self.poisoned is None ==> self.codec.output() == Seq::<u8>::empty()
    }

    /// A sink that compresses at `level`, through which nothing has passed.
    pub fn encoder(level: CompressionLevel) -> (sink: CodecSink)
        ensures
            sink.wf(),
            sink@ == (SinkState::Encoding {
                level: level.value(),
                input: Seq::empty(),
                emitted: Seq::empty(),
            }),
    {
        CodecSink { codec: Codec::Encoder(gz_encoder_new(level.get())), ended: false, poisoned: None }
    }

    /// A sink that decompresses, through which nothing has passed.
    pub fn decoder() -> (sink: CodecSink)
        ensures
            sink.wf(),
            sink@ == (SinkState::Decoding {
                consumed: Seq::empty(),
                emitted: Seq::empty(),
                ended: false,
            }),
    {
        CodecSink { codec: Codec::Decoder(gz_decoder_new()), ended: false, poisoned: None }
    }

    /// Writes `chunk` to the sink and returns what came out of the codec.
    ///
    /// How much comes out of one write is for the codec to say; what has come
    /// out in all is kept in the sink's state. When the codec reports an
    /// error the sink is poisoned: this call and every later one fails with
    /// that error, and what the codec had produced of this chunk is dropped.
    pub fn write(&mut self, chunk: &[u8]) -> (r: Result<Vec<u8>, TransferError>)
        requires
            old(self).wf(),
        ensures
            final(self).wf(),
            r matches Ok(out) ==> old(self)@.writes(chunk@, final(self)@, out@),
            r matches Err(error) ==> {
                &&& error == old(self)@.failure()
                &&& final(self)@ == SinkState::Poisoned { error }
                &&& old(self)@.may_reject(chunk@)
            },
    {
        if let Some(error) = self.poisoned {
            return Err(error);
        }
        match self.codec.feed(self.ended, chunk) {
            Ok((out, ended)) => {
                self.ended = ended;
                Ok(out)
            },
            Err(error) => {
                self.poisoned = Some(error);
                Err(error)
            },
        }
    }

    /// Finishes the stream and returns the last bytes that came out of the
    /// codec: the end of the compressed stream when compressing, and what
    /// was still held back when decompressing. Decompression fails here if
    /// the gzip member is incomplete or its checksum does not match.
    pub fn finish(self) -> (r: Result<Vec<u8>, TransferError>)
        requires
            self.wf(),
        ensures
            match self@.whole() {
                Some(whole) => r matches Ok(out) && self@.emitted() + out@ == whole,
                None => r == Err::<Vec<u8>, TransferError>(self@.failure()),
            },
    {
        if let Some(error) = self.poisoned {
            return Err(error);
        }
        match self.codec {
            Codec::Encoder(e) => match gz_encoder_finish(e) {
                Ok(out) => {
                    proof {
                        let whole = gzip_stream(gz_encoder_level(e), gz_encoder_input(e)).unwrap();
                        lemma_prefix_chain(gz_encoder_emitted(e), whole, whole);
                        assert(Seq::<u8>::empty() + whole.skip(gz_encoder_emitted(e).len() as int)
                            == out@);
                    }
                    Ok(out)
                },
                Err(_) => Err(TransferError::WriteError),
            },
            Codec::Decoder(d) => match gz_decoder_finish(d) {
                Ok(out) => {
                    proof {
                        let whole = gunzip_stream(gz_decoder_consumed(d)).unwrap();
                        lemma_prefix_chain(gz_decoder_emitted(d), whole, whole);
                        assert(Seq::<u8>::empty() + whole.skip(gz_decoder_emitted(d).len() as int)
                            == out@);
                    }
                    Ok(out)
                },
                Err(_) => Err(TransferError::CodecError),
            },
        }
    }
}

impl CodecSink {
    /// Whether the sink decompresses and the gzip member has ended, so that
    /// whatever else is written is ignored.
    pub fn member_ended(&self) -> (b: bool)
        ensures
            b == (self@ matches SinkState::Decoding { ended, .. } && ended),
    {
        match (&self.poisoned, &self.codec) {
            (None, Codec::Decoder(_)) => self.ended,
            _ => false,
        }
    }
}

/// An encoder that accepts some chunks and then some more has accepted the
/// first of them on the way.
pub proof fn lemma_accepts_prefix(
    level: u32,
    before: Seq<Seq<u8>>,
    first: Seq<Seq<u8>>,
    more: Seq<Seq<u8>>,
)
    requires
        accepts_all(level, before, first + more),
    ensures
        accepts_all(level, before, first),
    decreases more.len(),
{
    if more.len() == 0 {
        assert(first + more == first);
    } else {
        assert((first + more).drop_last() == first + more.drop_last());
        lemma_accepts_prefix(level, before, first, more.drop_last());
    }
}

} // verus!
