//! Compressed resume states, decoded piece by piece within the bounds of a selection.
use crate::import::archive::{capped_sum, ImportError, ImportLimits, SelectionBudget};
use std::io::{BufReader, Cursor};
use vstd::prelude::*;
use zstd::stream::read::Decoder as ZstdStream;

verus! {

/// The largest window that a stream may need, as a power of two.
pub const WINDOW_LOG: u32 = 23;

/// How many bytes are asked of a stream at a time.
pub const PIECE_BYTES: usize = 65536;

#[verifier::external_type_specification]
#[verifier::external_body]
#[verifier::reject_recursive_types(R)]
pub struct ExZstdStream<'a, R>(ZstdStream<'a, R>);

#[verifier::external_type_specification]
#[verifier::external_body]
#[verifier::reject_recursive_types(R)]
pub struct ExBufReader<R: ?Sized>(BufReader<R>);

#[verifier::external_type_specification]
#[verifier::external_body]
#[verifier::reject_recursive_types(T)]
pub struct ExCursor<T>(Cursor<T>);

/// The compressed bytes that a stream was made of.
pub uninterp spec fn zstd_held(stream: ZstdStream<'static, BufReader<Cursor<Vec<u8>>>>) -> Seq<u8>;

/// The bound on the window that a stream was made with.
pub uninterp spec fn zstd_window(stream: ZstdStream<'static, BufReader<Cursor<Vec<u8>>>>) -> u32;

/// How many bytes each read of a stream so far asked for.
pub uninterp spec fn zstd_asked(stream: ZstdStream<'static, BufReader<Cursor<Vec<u8>>>>) -> Seq<
    usize,
>;

/// Whether a stream of compressed bytes can be made with a bound on its window.
pub uninterp spec fn zstd_opens(compressed: Seq<u8>, window_log: u32) -> bool;

/// `zstd::stream::read::Decoder::new`, with the bound that `window_log_max` sets, makes a
/// stream of compressed bytes that was not read yet; whether it can is a function of the
/// bytes and the bound.
#[verifier::external_body]
fn open_zstd(compressed: &Vec<u8>, window_log: u32) -> (r: Option<
    ZstdStream<'static, BufReader<Cursor<Vec<u8>>>>,
>)
    ensures
        match r {
            Some(stream) => zstd_opens(compressed@, window_log) && zstd_held(stream) == compressed@
                && zstd_window(stream) == window_log && zstd_asked(stream) == Seq::<usize>::empty(),
            None => !zstd_opens(compressed@, window_log),
        },
{
    let mut stream = ZstdStream::new(Cursor::new(compressed.clone())).ok()?;
    stream.window_log_max(window_log).ok()?;
    Some(stream)
}

/// What the last of several reads hands out, each of which asked for so many bytes; none if
/// the stream is corrupt there or needs a larger window.
pub uninterp spec fn zstd_piece(compressed: Seq<u8>, window_log: u32, asked: Seq<usize>) -> Option<
    Seq<u8>,
>;

/// `std::io::Read::read` of a `zstd::stream::read::Decoder` hands out at most as many bytes
/// as it is asked for. What it hands out is a function of the compressed bytes, the window
/// and what the reads up to it asked for.
#[verifier::external_body]
fn read_zstd(stream: &mut ZstdStream<'static, BufReader<Cursor<Vec<u8>>>>, size: usize) -> (r:
    Option<Vec<u8>>)
    requires
        size > 0,
    ensures
        zstd_held(*final(stream)) == zstd_held(*old(stream)),
        zstd_window(*final(stream)) == zstd_window(*old(stream)),
        zstd_asked(*final(stream)) == zstd_asked(*old(stream)).push(size),
        match r {
            Some(piece) => piece@.len() <= size && zstd_piece(
                zstd_held(*old(stream)),
                zstd_window(*old(stream)),
                zstd_asked(*old(stream)).push(size),
            ) == Some(piece@),
            None => zstd_piece(
                zstd_held(*old(stream)),
                zstd_window(*old(stream)),
                zstd_asked(*old(stream)).push(size),
            ) is None,
        },
{
    let mut piece = vec![0; size];
    let count = std::io::Read::read(stream, &mut piece).ok()?;
    piece.truncate(count);
    Some(piece)
}

/// What a piece behind so many decoded bytes comes to, when so many bytes were selected
/// before: whether more may come. The bound on decoded bytes goes first.
pub open spec fn piece_outcome(
    decoded: nat,
    bytes: usize,
    piece: Option<Seq<u8>>,
    limits: ImportLimits,
) -> Result<bool, ImportError> {
    match piece {
        None => Err(ImportError::CorruptResume),
        Some(piece) => if piece.len() == 0 {
            Ok(false)
        } else if decoded + piece.len() > limits.max_decoded_resume_bytes {
            Err(ImportError::Limit("decoded resume bytes"))
        } else if capped_sum(bytes, piece.len() as usize) > limits.max_selected_bytes {
            Err(ImportError::Limit("selected bytes"))
        } else {
            Ok(true)
        },
    }
}

/// How many bytes are selected after a piece: it counts unless the stream is corrupt or the
/// piece passes the bound on decoded bytes.
pub open spec fn piece_bytes(
    decoded: nat,
    bytes: usize,
    piece: Option<Seq<u8>>,
    limits: ImportLimits,
) -> usize {
    match piece {
        None => bytes,
        Some(piece) => if piece.len() == 0 || decoded + piece.len()
            > limits.max_decoded_resume_bytes {
            bytes
        } else {
            capped_sum(bytes, piece.len() as usize)
        },
    }
}

/// A piece as a model.
pub open spec fn piece_model(piece: Option<Vec<u8>>) -> Option<Seq<u8>> {
    match piece {
        Some(piece) => Some(piece@),
        None => None,
    }
}

/// Takes a piece of a resume state. Answers whether more may come.
pub fn take_piece(
    decoded: &mut Vec<u8>,
    piece: Option<Vec<u8>>,
    budget: &mut SelectionBudget,
    limits: &ImportLimits,
) -> (r: Result<bool, ImportError>)
    ensures
        r == piece_outcome(old(decoded)@.len(), old(budget).bytes, piece_model(piece), *limits),
        *final(budget) == (SelectionBudget {
            bytes: piece_bytes(
                old(decoded)@.len(),
                old(budget).bytes,
                piece_model(piece),
                *limits,
            ),
            ..*old(budget)
        }),
        final(decoded)@ == if r == Ok::<bool, ImportError>(true) {
            old(decoded)@ + piece->0@
        } else {
            old(decoded)@
        },
{
    let mut piece = match piece {
        Some(piece) => piece,
        None => return Err(ImportError::CorruptResume),
    };
    if piece.len() == 0 {
        return Ok(false);
    }
    if piece.len() > limits.max_decoded_resume_bytes || decoded.len()
        > limits.max_decoded_resume_bytes - piece.len() {
        return Err(ImportError::Limit("decoded resume bytes"));
    }
    match budget.add_bytes(piece.len(), limits) {
        Err(error) => return Err(error),
        Ok(()) => {},
    }
    decoded.append(&mut piece);
    Ok(true)
}

/// A resume state that is being decoded.
pub struct ResumeReader {
    stream: ZstdStream<'static, BufReader<Cursor<Vec<u8>>>>,
    decoded: Vec<u8>,
    limits: ImportLimits,
}

/// How far a resume state was decoded.
#[verifier::ext_equal]
pub struct ReaderModel {
    pub compressed: Seq<u8>,
    pub asked: Seq<usize>,
    pub decoded: Seq<u8>,
    pub limits: ImportLimits,
}

impl ResumeReader {
    /// The bound on the window is the same for every reader.
    #[verifier::type_invariant]
    spec fn well_formed(self) -> bool {
        zstd_window(self.stream) == WINDOW_LOG
    }
}

impl View for ResumeReader {
    type V = ReaderModel;

    closed spec fn view(&self) -> ReaderModel {
        ReaderModel {
            compressed: zstd_held(self.stream),
            asked: zstd_asked(self.stream),
            decoded: self.decoded@,
            limits: self.limits,
        }
    }
}

/// How many bytes are asked for behind so many decoded ones: one more than may still come,
/// as far as a piece goes.
pub open spec fn asked_next(decoded: nat, limits: ImportLimits) -> usize {
    if decoded + PIECE_BYTES <= limits.max_decoded_resume_bytes + 1 {
        PIECE_BYTES
    } else if decoded <= limits.max_decoded_resume_bytes {
        (limits.max_decoded_resume_bytes - decoded + 1) as usize
    } else {
        1
    }
}

/// The next piece of a resume state.
pub open spec fn piece_next(reader: ReaderModel) -> Option<Seq<u8>> {
    zstd_piece(
        reader.compressed,
        WINDOW_LOG,
        reader.asked.push(asked_next(reader.decoded.len(), reader.limits)),
    )
}

/// A reader after its next piece.
pub open spec fn stepped(reader: ReaderModel, bytes: usize) -> ReaderModel {
    ReaderModel {
        asked: reader.asked.push(asked_next(reader.decoded.len(), reader.limits)),
        decoded: if piece_outcome(reader.decoded.len(), bytes, piece_next(reader), reader.limits)
            == Ok::<bool, ImportError>(true) {
            reader.decoded + piece_next(reader)->0
        } else {
            reader.decoded
        },
        ..reader
    }
}

impl ResumeReader {
    /// Starts to decode a resume state.
    pub fn new(compressed: &Vec<u8>, budget: &mut SelectionBudget, limits: &ImportLimits) -> (r:
        Result<Self, ImportError>)
        ensures
            ({
                let taken = capped_sum(old(budget).bytes, compressed@.len() as usize);
                if compressed@.len() > limits.max_compressed_resume_bytes {
                    &&& r == Err::<Self, ImportError>(ImportError::Limit("compressed resume bytes"))
                    &&& *final(budget) == *old(budget)
                } else {
                    &&& *final(budget) == (SelectionBudget { bytes: taken, ..*old(budget) })
                    &&& match r {
                        Ok(reader) => taken <= limits.max_selected_bytes && zstd_opens(
                            compressed@,
                            WINDOW_LOG,
                        ) && reader@ == (ReaderModel {
                            compressed: compressed@,
                            asked: Seq::empty(),
                            decoded: Seq::empty(),
                            limits: *limits,
                        }),
                        Err(error) => if taken > limits.max_selected_bytes {
                            error == ImportError::Limit("selected bytes")
                        } else {
                            error == ImportError::CorruptResume && !zstd_opens(
                                compressed@,
                                WINDOW_LOG,
                            )
                        },
                    }
                }
            }),
    {
        if compressed.len() > limits.max_compressed_resume_bytes {
            return Err(ImportError::Limit("compressed resume bytes"));
        }
        match budget.add_bytes(compressed.len(), limits) {
            Err(error) => return Err(error),
            Ok(()) => {},
        }
        match open_zstd(compressed, WINDOW_LOG) {
            Some(stream) => {
                let decoded: Vec<u8> = Vec::new();
                assert(decoded@ =~= Seq::<u8>::empty());
                Ok(ResumeReader { stream, decoded, limits: *limits })
            },
            None => Err(ImportError::CorruptResume),
        }
    }

    /// Decodes the next piece. Answers whether more may come, with the reader.
    pub fn step(self, budget: &mut SelectionBudget) -> (r: (Self, Result<bool, ImportError>))
        ensures
            r.0@ == stepped(self@, old(budget).bytes),
            r.1 == piece_outcome(
                self@.decoded.len(),
                old(budget).bytes,
                piece_next(self@),
                self@.limits,
            ),
            *final(budget) == (SelectionBudget {
                bytes: piece_bytes(
                    self@.decoded.len(),
                    old(budget).bytes,
                    piece_next(self@),
                    self@.limits,
                ),
                ..*old(budget)
            }),
    {
        proof {
            use_type_invariant(&self);
        }
        let ResumeReader { stream, decoded, limits } = self;
        let mut stream = stream;
        let mut decoded = decoded;
        let most = limits.max_decoded_resume_bytes;
        let size = if decoded.len() > most {
            1
        } else if most - decoded.len() < PIECE_BYTES {
            most - decoded.len() + 1
        } else {
            PIECE_BYTES
        };
        assert(size == asked_next(decoded@.len(), limits));
        let piece = read_zstd(&mut stream, size);
        let r = take_piece(&mut decoded, piece, budget, &limits);
        (ResumeReader { stream, decoded, limits }, r)
    }

    /// What was decoded.
    pub fn finish(self) -> (r: Vec<u8>)
        ensures
            r@ == self@.decoded,
    {
        self.decoded
    }
}

/// What a resume state comes to from a reader on, when so many bytes were selected before,
/// and how many are selected then.
pub open spec fn resume_outcome(reader: ReaderModel, bytes: usize) -> (
    Result<Seq<u8>, ImportError>,
    usize,
)
    decreases reader.limits.max_decoded_resume_bytes - reader.decoded.len(),
{
    let piece = piece_next(reader);
    let after = piece_bytes(reader.decoded.len(), bytes, piece, reader.limits);
    match piece_outcome(reader.decoded.len(), bytes, piece, reader.limits) {
        Err(error) => (Err(error), after),
        Ok(more) => if more {
            resume_outcome(stepped(reader, bytes), after)
        } else {
            (Ok(reader.decoded), after)
        },
    }
}

/// The bytes that a compressed resume state stands for.
pub fn decode_resume(compressed: &Vec<u8>, budget: &mut SelectionBudget, limits: &ImportLimits) -> (r:
    Result<Vec<u8>, ImportError>)
    ensures
        ({
            let taken = capped_sum(old(budget).bytes, compressed@.len() as usize);
            let reader = ReaderModel {
                compressed: compressed@,
                asked: Seq::empty(),
                decoded: Seq::empty(),
                limits: *limits,
            };
            let (outcome, bytes): (Result<Seq<u8>, ImportError>, usize) = if compressed@.len()
                > limits.max_compressed_resume_bytes {
                (Err(ImportError::Limit("compressed resume bytes")), old(budget).bytes)
            } else if taken > limits.max_selected_bytes {
                (Err(ImportError::Limit("selected bytes")), taken)
            } else if !zstd_opens(compressed@, WINDOW_LOG) {
                (Err(ImportError::CorruptResume), taken)
            } else {
                resume_outcome(reader, taken)
            };
            &&& *final(budget) == (SelectionBudget { bytes, ..*old(budget) })
            &&& match (r, outcome) {
                (Ok(decoded), Ok(expected)) => decoded@ == expected,
                (Err(error), Err(expected)) => error == expected,
                _ => false,
            }
        }),
{
    let mut reader = match ResumeReader::new(compressed, budget, limits) {
        Err(error) => return Err(error),
        Ok(reader) => reader,
    };
    let ghost start = reader@;
    let ghost whole = resume_outcome(start, budget.bytes);
    loop
        invariant_except_break
            resume_outcome(reader@, budget.bytes) == whole,
        invariant
            budget.records == old(budget).records,
            reader@.limits == *limits,
            start == (ReaderModel {
                compressed: compressed@,
                asked: Seq::empty(),
                decoded: Seq::empty(),
                limits: *limits,
            }),
            whole == resume_outcome(
                start,
                capped_sum(old(budget).bytes, compressed@.len() as usize),
            ),
            compressed@.len() <= limits.max_compressed_resume_bytes,
            capped_sum(old(budget).bytes, compressed@.len() as usize) <= limits.max_selected_bytes,
            zstd_opens(compressed@, WINDOW_LOG),
        ensures
            whole == (Ok::<Seq<u8>, ImportError>(reader@.decoded), budget.bytes),
        decreases limits.max_decoded_resume_bytes - reader@.decoded.len(),
    {
        let (next, result) = reader.step(budget);
        reader = next;
        match result {
            Err(error) => return Err(error),
            Ok(more) => {
                if !more {
                    break;
                }
            },
        }
    }
    Ok(reader.finish())
}

/// A resume state that is decoded goes on from what was decoded before and stays within its
/// bound, and every byte that is added to it is counted as selected, within that bound too.
pub proof fn law_resume_states_stay_within_their_bounds(reader: ReaderModel, bytes: usize)
    requires
        reader.decoded.len() <= reader.limits.max_decoded_resume_bytes,
        bytes <= reader.limits.max_selected_bytes < usize::MAX,
    ensures
        resume_outcome(reader, bytes).0 matches Ok(state) ==> {
            &&& reader.decoded.len() <= state.len() <= reader.limits.max_decoded_resume_bytes
            &&& state.subrange(0, reader.decoded.len() as int) == reader.decoded
            &&& resume_outcome(reader, bytes).1 == bytes + state.len() - reader.decoded.len()
            &&& resume_outcome(reader, bytes).1 <= reader.limits.max_selected_bytes
        },
    decreases reader.limits.max_decoded_resume_bytes - reader.decoded.len(),
{
    let piece = piece_next(reader);
    let after = piece_bytes(reader.decoded.len(), bytes, piece, reader.limits);
    let next = stepped(reader, bytes);
    if piece_outcome(reader.decoded.len(), bytes, piece, reader.limits) == Ok::<bool, ImportError>(
        true,
    ) {
        law_resume_states_stay_within_their_bounds(next, after);
        if resume_outcome(next, after).0 is Ok {
            let state = resume_outcome(next, after).0->Ok_0;
            let n = reader.decoded.len() as int;
            assert(state.subrange(0, n) =~= state.subrange(0, next.decoded.len() as int).subrange(
                0,
                n,
            ));
            assert(next.decoded.subrange(0, n) =~= reader.decoded);
        }
    } else if resume_outcome(reader, bytes).0 is Ok {
        assert(reader.decoded.subrange(0, reader.decoded.len() as int) =~= reader.decoded);
    }
}

} // verus!
