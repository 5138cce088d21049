//! Server-sent events: bytes cut into lines, lines gathered into events.
use crate::inference::decoder::{decoded, deltas, Decoder, DecoderModel, Delta, DeltaModel};
use crate::inference::failure::FailureKind;
use crate::json::parsed_json;
use vstd::prelude::*;

verus! {

/// What has been received of an event stream.
#[derive(Debug, PartialEq, Eq)]
pub struct Sse {
    line: Vec<u8>,
    data: Vec<u8>,
    event_bytes: usize,
}

/// What has been received.
#[verifier::ext_equal]
pub struct SseModel {
    pub line: Seq<u8>,
    pub data: Seq<u8>,
    pub event_bytes: int,
}

impl View for Sse {
    type V = SseModel;

    closed spec fn view(&self) -> SseModel {
        SseModel { line: self.line@, data: self.data@, event_bytes: self.event_bytes as int }
    }
}

/// A stream and what was decoded of it.
#[verifier::ext_equal]
pub struct StreamModel {
    pub sse: SseModel,
    pub decoder: DecoderModel,
    pub emitted: Seq<DeltaModel>,
    /// How the stream ended, if it did.
    pub ended: Option<Result<bool, FailureKind>>,
}

/// A line without a carriage return at its end.
pub open spec fn without_return(line: Seq<u8>) -> Seq<u8> {
    if line.len() > 0 && line.last() == 13 {
        line.drop_last()
    } else {
        line
    }
}

/// The data that a line of an event carries: what follows `data:` and one space.
pub open spec fn line_data(line: Seq<u8>) -> Option<Seq<u8>> {
    if line.len() >= 5 && line[0] == 100 && line[1] == 97 && line[2] == 116 && line[3] == 97
        && line[4] == 58 {
        let rest = line.subrange(5, line.len() as int);
        if rest.len() > 0 && rest[0] == 32 {
            Some(rest.subrange(1, rest.len() as int))
        } else {
            Some(rest)
        }
    } else {
        None
    }
}

/// Whether data is the mark that ends a stream.
pub open spec fn done_mark(data: Seq<u8>) -> bool {
    data.len() == 6 && data[0] == 91 && data[1] == 68 && data[2] == 79 && data[3] == 78 && data[4]
        == 69 && data[5] == 93
}

/// What the end of a line does.
pub open spec fn line_ended(state: StreamModel) -> StreamModel {
    let line = without_return(state.sse.line);
    if line.len() == 0 {
        let counted = SseModel { event_bytes: 0, line, ..state.sse };
        if state.sse.data.len() == 0 {
            StreamModel { sse: counted, ..state }
        } else {
            let data = state.sse.data.drop_last();
            if done_mark(data) {
                StreamModel {
                    sse: SseModel { data, ..counted },
                    ended: Some(Err(FailureKind::Interrupted)),
                    ..state
                }
            } else {
                let step = decoded(state.decoder, parsed_json(data));
                let emitted = match step.delta {
                    Some(delta) => state.emitted.push(delta),
                    None => state.emitted,
                };
                match step.result {
                    Err(error) => StreamModel {
                        sse: SseModel { data, ..counted },
                        decoder: step.state,
                        emitted,
                        ended: Some(Err(error)),
                    },
                    Ok(terminal) => StreamModel {
                        sse: SseModel { data: Seq::empty(), ..counted },
                        decoder: step.state,
                        emitted,
                        ended: if terminal {
                            Some(Ok(true))
                        } else {
                            None
                        },
                    },
                }
            }
        }
    } else {
        let data = match line_data(line) {
            Some(more) => (state.sse.data + more).push(10),
            None => state.sse.data,
        };
        StreamModel { sse: SseModel { data, line: Seq::empty(), ..state.sse }, ..state }
    }
}

/// What one byte does to a stream that has not ended.
pub open spec fn byte_taken(state: StreamModel, byte: u8, limit: int) -> StreamModel {
    let count = state.sse.event_bytes + 1;
    let counted = StreamModel {
        sse: SseModel {
            event_bytes: if count > usize::MAX {
                usize::MAX as int
            } else {
                count
            },
            ..state.sse
        },
        ..state
    };
    if count > limit {
        StreamModel { ended: Some(Err(FailureKind::SizeLimit)), ..counted }
    } else if byte != 10 {
        StreamModel {
            sse: SseModel { line: state.sse.line.push(byte), ..counted.sse },
            ..counted
        }
    } else {
        line_ended(counted)
    }
}

/// What the first `n` bytes do to a stream: nothing after it has ended.
pub open spec fn bytes_taken(state: StreamModel, bytes: Seq<u8>, n: int, limit: int) -> StreamModel
    decreases n,
{
    if n <= 0 {
        state
    } else {
        let before = bytes_taken(state, bytes, n - 1, limit);
        if before.ended is Some {
            before
        } else {
            byte_taken(before, bytes[n - 1], limit)
        }
    }
}

proof fn lemma_ended(state: StreamModel, bytes: Seq<u8>, at: int, n: int, limit: int)
    requires
        0 <= at <= n,
        bytes_taken(state, bytes, at, limit).ended is Some,
    ensures
        bytes_taken(state, bytes, n, limit) == bytes_taken(state, bytes, at, limit),
    decreases n,
{
    if at < n {
        lemma_ended(state, bytes, at, n - 1, limit);
    }
}

fn read_data(line: &Vec<u8>) -> (r: Option<Vec<u8>>)
    ensures
        match r {
            Some(data) => line_data(line@) == Some(data@),
            None => line_data(line@) is None,
        },
{
    if !(line.len() >= 5 && line[0] == 100 && line[1] == 97 && line[2] == 116 && line[3] == 97
        && line[4] == 58) {
        return None;
    }
    let start: usize = if line.len() > 5 && line[5] == 32 {
        6
    } else {
        5
    };
    let mut data: Vec<u8> = Vec::new();
    let mut i: usize = start;
    assert(data@ =~= line@.subrange(start as int, start as int));
    while i < line.len()
        invariant
            start <= i <= line.len(),
            data@ == line@.subrange(start as int, i as int),
        decreases line.len() - i,
    {
        data.push(line[i]);
        i += 1;
        assert(data@ =~= line@.subrange(start as int, i as int));
    }
    proof {
        let rest = line@.subrange(5, line@.len() as int);
        if start == 6 {
            assert(rest[0] == 32);
            assert(data@ =~= rest.subrange(1, rest.len() as int));
        } else {
            assert(data@ =~= rest);
        }
    }
    Some(data)
}

fn append_bytes(to: &mut Vec<u8>, bytes: &Vec<u8>)
    ensures
        final(to)@ == old(to)@ + bytes@,
{
    let mut i: usize = 0;
    assert(to@ =~= old(to)@ + bytes@.subrange(0, 0));
    while i < bytes.len()
        invariant
            i <= bytes.len(),
            to@ == old(to)@ + bytes@.subrange(0, i as int),
        decreases bytes.len() - i,
    {
        to.push(bytes[i]);
        i += 1;
        assert(to@ =~= old(to)@ + bytes@.subrange(0, i as int));
    }
    assert(bytes@.subrange(0, bytes@.len() as int) =~= bytes@);
}

fn is_done_mark(data: &Vec<u8>) -> (r: bool)
    ensures
        r == done_mark(data@),
{
    data.len() == 6 && data[0] == 91 && data[1] == 68 && data[2] == 79 && data[3] == 78 && data[4]
        == 69 && data[5] == 93
}

/// How a stream stands after a call.
pub open spec fn stream_of(
    sse: SseModel,
    decoder: DecoderModel,
    emitted: Seq<DeltaModel>,
    ended: Option<Result<bool, FailureKind>>,
) -> StreamModel {
    StreamModel { sse, decoder, emitted, ended }
}

impl Sse {
    pub fn new() -> (r: Self)
        ensures
            r@ == (SseModel { line: Seq::empty(), data: Seq::empty(), event_bytes: 0 }),
    {
        Sse { line: Vec::new(), data: Vec::new(), event_bytes: 0 }
    }

    fn end_line(&mut self, decoder: &mut Decoder, emitted: &mut Vec<Delta>) -> (ended: Option<
        Result<bool, FailureKind>,
    >)
        ensures
            stream_of(final(self)@, final(decoder)@, deltas(final(emitted)@), ended) == line_ended(
                stream_of(old(self)@, old(decoder)@, deltas(old(emitted)@), None),
            ),
    {
        if self.line.len() > 0 && self.line[self.line.len() - 1] == 13 {
            let _ = self.line.pop();
        }
        assert(self.line@ =~= without_return(old(self).line@));
        if self.line.len() == 0 {
            self.event_bytes = 0;
            if self.data.len() == 0 {
                return None;
            }
            let _ = self.data.pop();
            assert(self.data@ =~= old(self).data@.drop_last());
            if is_done_mark(&self.data) {
                return Some(Err(FailureKind::Interrupted));
            }
            let result = decoder.event(self.data.as_slice(), emitted);
            match result {
                Err(error) => Some(Err(error)),
                Ok(terminal) => {
                    self.data = Vec::new();
                    assert(self.data@ =~= Seq::<u8>::empty());
                    if terminal {
                        Some(Ok(true))
                    } else {
                        None
                    }
                },
            }
        } else {
            match read_data(&self.line) {
                Some(more) => {
                    append_bytes(&mut self.data, &more);
                    self.data.push(10);
                },
                None => {},
            }
            self.line = Vec::new();
            assert(self.line@ =~= Seq::<u8>::empty());
            None
        }
    }

    /// Takes bytes of the stream. Answers whether the response ended.
    pub fn push(
        &mut self,
        bytes: &[u8],
        limit: usize,
        decoder: &mut Decoder,
        emitted: &mut Vec<Delta>,
    ) -> (r: Result<bool, FailureKind>)
        ensures
            ({
                let after = bytes_taken(
                    stream_of(old(self)@, old(decoder)@, deltas(old(emitted)@), None),
                    bytes@,
                    bytes@.len() as int,
                    limit as int,
                );
                &&& stream_of(
                    final(self)@,
                    final(decoder)@,
                    deltas(final(emitted)@),
                    after.ended,
                ) == after
                &&& r == match after.ended {
                    Some(result) => result,
                    None => Ok(false),
                }
            }),
    {
        let ghost start = stream_of(old(self)@, old(decoder)@, deltas(old(emitted)@), None);
        let mut i: usize = 0;
        while i < bytes.len()
            invariant
                i <= bytes.len(),
                start == stream_of(old(self)@, old(decoder)@, deltas(old(emitted)@), None),
                stream_of(self@, decoder@, deltas(emitted@), None) == bytes_taken(
                    start,
                    bytes@,
                    i as int,
                    limit as int,
                ),
            decreases bytes.len() - i,
        {
            let byte = bytes[i];
            let ghost at = i as int;
            let ghost before = stream_of(self@, decoder@, deltas(emitted@), None);
            let full = self.event_bytes == usize::MAX;
            if !full {
                self.event_bytes = self.event_bytes + 1;
            }
            if full || self.event_bytes > limit {
                proof {
                    assert(bytes_taken(start, bytes@, at + 1, limit as int) == byte_taken(
                        before,
                        byte,
                        limit as int,
                    ));
                    lemma_ended(start, bytes@, at + 1, bytes@.len() as int, limit as int);
                }
                return Err(FailureKind::SizeLimit);
            }
            if byte != 10 {
                self.line.push(byte);
            } else {
                match self.end_line(decoder, emitted) {
                    Some(result) => {
                        proof {
                            assert(bytes_taken(start, bytes@, at + 1, limit as int) == byte_taken(
                                before,
                                byte,
                                limit as int,
                            ));
                            lemma_ended(start, bytes@, at + 1, bytes@.len() as int, limit as int);
                        }
                        return result;
                    },
                    None => {},
                }
            }
            i += 1;
        }
        Ok(false)
    }
}

/// How bytes are cut into pieces makes no difference: taking one piece and then another
/// is taking both at once.
pub proof fn law_chunks_do_not_matter(
    state: StreamModel,
    first: Seq<u8>,
    second: Seq<u8>,
    n: int,
    limit: int,
)
    requires
        0 <= n <= second.len(),
        bytes_taken(state, first, first.len() as int, limit).ended is None,
    ensures
        bytes_taken(state, first + second, first.len() + n, limit) == bytes_taken(
            bytes_taken(state, first, first.len() as int, limit),
            second,
            n,
            limit,
        ),
    decreases n,
{
    if n == 0 {
        lemma_same_start(state, first, first + second, first.len() as int, limit);
    } else {
        law_chunks_do_not_matter(state, first, second, n - 1, limit);
        assert((first + second)[first.len() + n - 1] == second[n - 1]);
    }
}

proof fn lemma_same_start(state: StreamModel, a: Seq<u8>, b: Seq<u8>, n: int, limit: int)
    requires
        0 <= n <= a.len(),
        n <= b.len(),
        forall|i: int| 0 <= i < n ==> a[i] == b[i],
    ensures
        bytes_taken(state, a, n, limit) == bytes_taken(state, b, n, limit),
    decreases n,
{
    if n > 0 {
        lemma_same_start(state, a, b, n - 1, limit);
    }
}

/// An event as it stands in a stream: its data behind their name, and an empty line.
pub open spec fn event_of(data: Seq<u8>) -> Seq<u8> {
    seq![100u8, 97, 116, 97, 58, 32] + data + seq![10u8, 10]
}

proof fn lemma_within_line(state: StreamModel, bytes: Seq<u8>, n: int, limit: int)
    requires
        0 <= n <= bytes.len(),
        state.ended is None,
        0 <= state.sse.event_bytes,
        state.sse.event_bytes + n <= limit <= usize::MAX,
        forall|i: int| 0 <= i < n ==> (#[trigger] bytes[i]) != 10,
    ensures
        bytes_taken(state, bytes, n, limit) == (StreamModel {
            sse: SseModel {
                line: state.sse.line + bytes.subrange(0, n),
                event_bytes: state.sse.event_bytes + n,
                ..state.sse
            },
            ..state
        }),
    decreases n,
{
    if n > 0 {
        lemma_within_line(state, bytes, n - 1, limit);
        assert(bytes[n - 1] != 10);
        assert(bytes.subrange(0, n) =~= bytes.subrange(0, n - 1).push(bytes[n - 1]));
        assert(state.sse.line + bytes.subrange(0, n) =~= (state.sse.line + bytes.subrange(
            0,
            n - 1,
        )).push(bytes[n - 1]));
    } else {
        assert(state.sse.line + bytes.subrange(0, 0) =~= state.sse.line);
    }
}

/// An event is decoded as what its data spell, once its empty line has come: what it says is
/// passed on and what it does to the decoder is done, and an error or a terminal event ends the
/// stream. The mark that ends a stream interrupts it, as the response has not ended.
pub proof fn law_events_are_decoded(state: StreamModel, data: Seq<u8>, limit: int)
    requires
        state.ended is None,
        state.sse.line.len() == 0,
        state.sse.data.len() == 0,
        0 <= state.sse.event_bytes,
        state.sse.event_bytes + data.len() + 8 <= limit <= usize::MAX,
        forall|i: int| 0 <= i < data.len() ==> (#[trigger] data[i]) != 10,
        data.len() > 0 ==> data.last() != 13,
    ensures
        ({
            let bytes = event_of(data);
            let after = bytes_taken(state, bytes, bytes.len() as int, limit);
            let step = decoded(state.decoder, parsed_json(data));
            if data == seq![91u8, 68, 79, 78, 69, 93] {
                &&& after.ended == Some(Err::<bool, FailureKind>(FailureKind::Interrupted))
                &&& after.decoder == state.decoder
                &&& after.emitted == state.emitted
            } else {
                &&& after.decoder == step.state
                &&& after.emitted == match step.delta {
                    Some(delta) => state.emitted.push(delta),
                    None => state.emitted,
                }
                &&& after.ended == match step.result {
                    Err(error) => Some(Err::<bool, FailureKind>(error)),
                    Ok(true) => Some(Ok(true)),
                    Ok(false) => None,
                }
                &&& step.result == Ok::<bool, FailureKind>(false) ==> after.sse.line.len() == 0
                    && after.sse.data.len() == 0 && after.sse.event_bytes == 0
            }
        }),
{
    let bytes = event_of(data);
    let n = data.len() as int;
    let name = seq![100u8, 97, 116, 97, 58, 32];
    assert(bytes.len() == n + 8);
    assert forall|i: int| 0 <= i < n + 6 implies (#[trigger] bytes[i]) != 10 by {
        if i >= 6 {
            assert(bytes[i] == data[i - 6]);
        } else {
            assert(bytes[i] == name[i]);
        }
    }
    lemma_within_line(state, bytes, n + 6, limit);
    let line = state.sse.line + bytes.subrange(0, n + 6);
    assert(line =~= name + data);
    assert(bytes[n + 6] == 10 && bytes[n + 7] == 10);
    let first = bytes_taken(state, bytes, n + 6, limit);
    let second = bytes_taken(state, bytes, n + 7, limit);
    assert(line.last() != 13) by {
        if n > 0 {
            assert(line.last() == data.last());
        }
    }
    assert(without_return(line) == line);
    let rest = line.subrange(5, line.len() as int);
    assert(line[0] == 100 && line[1] == 97 && line[2] == 116 && line[3] == 97 && line[4] == 58);
    assert(rest[0] == 32);
    assert(rest.subrange(1, rest.len() as int) =~= data);
    assert(line_data(line) == Some(data));
    assert(state.sse.data + data =~= data);
    assert(second.sse.data == data.push(10));
    assert(second.sse.line =~= Seq::<u8>::empty());
    assert(without_return(second.sse.line) =~= Seq::<u8>::empty());
    assert(data.push(10).drop_last() =~= data);
    assert(done_mark(data) == (data =~= seq![91u8, 68, 79, 78, 69, 93]));
    let third = bytes_taken(state, bytes, n + 8, limit);
    assert(third == byte_taken(second, 10, limit));
}

} // verus!
