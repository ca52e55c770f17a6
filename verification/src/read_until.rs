//! Extraction of delimiter-terminated frames from a byte stream that arrives
//! in chunks of any size.
//!
//! The reader never touches a transport. Its owner performs each read and
//! reports what came of it; the reader keeps the bytes received so far, says
//! whether a frame is complete, and holds back what follows the frame for
//! the next one.

use vstd::prelude::*;

verus! {

/// `pattern` stands in `bytes` at index `at`.
pub open spec fn occurs_at(bytes: Seq<u8>, pattern: Seq<u8>, at: int) -> bool {
    &&& 0 <= at
    &&& at + pattern.len() <= bytes.len()
    &&& bytes.subrange(at, at + pattern.len()) == pattern
}

/// `pattern` stands somewhere in `bytes`.
pub open spec fn contains_pattern(bytes: Seq<u8>, pattern: Seq<u8>) -> bool {
    exists|at: int| occurs_at(bytes, pattern, at)
}

/// `pattern` stands in `bytes` at index `at` and nowhere before.
pub open spec fn first_at(bytes: Seq<u8>, pattern: Seq<u8>, at: int) -> bool {
    &&& occurs_at(bytes, pattern, at)
    &&& forall|earlier: int| 0 <= earlier < at ==> !occurs_at(bytes, pattern, earlier)
}

/// The index of the first occurrence of `pattern` in `bytes`.
pub open spec fn first_occurrence(bytes: Seq<u8>, pattern: Seq<u8>) -> Option<int> {
    if exists|at: int| first_at(bytes, pattern, at) {
        Some(choose|at: int| first_at(bytes, pattern, at))
    } else {
        None
    }
}

/// A buffer cut behind the first occurrence of the delimiter: the frame,
/// delimiter included, and the bytes after it. `None` while the buffer holds
/// no delimiter.
pub open spec fn split_frame(buffer: Seq<u8>, delimiter: Seq<u8>) -> Option<(Seq<u8>, Seq<u8>)> {
    match first_occurrence(buffer, delimiter) {
        Some(at) => Some(
            (buffer.take(at + delimiter.len()), buffer.skip(at + delimiter.len())),
        ),
        None => None,
    }
}

/// There is at most one first occurrence.
pub proof fn lemma_first_at_unique(bytes: Seq<u8>, pattern: Seq<u8>, at: int)
    requires
        first_at(bytes, pattern, at),
    ensures
        first_occurrence(bytes, pattern) == Some(at),
{
    let chosen = choose|at: int| first_at(bytes, pattern, at);
    assert(first_at(bytes, pattern, chosen));
    if chosen < at {
        assert(!occurs_at(bytes, pattern, chosen));
    } else if at < chosen {
        assert(!occurs_at(bytes, pattern, at));
    }
}

/// Where the pattern occurs at all, it occurs for a first time, at or
/// before any given occurrence.
pub proof fn lemma_first_occurrence_exists(bytes: Seq<u8>, pattern: Seq<u8>, at: int)
    requires
        occurs_at(bytes, pattern, at),
    ensures
        first_occurrence(bytes, pattern) is Some,
        0 <= first_occurrence(bytes, pattern)->Some_0 <= at,
        first_at(bytes, pattern, first_occurrence(bytes, pattern)->Some_0),
    decreases at,
{
    if exists|earlier: int| 0 <= earlier < at && occurs_at(bytes, pattern, earlier) {
        let earlier = choose|earlier: int| 0 <= earlier < at && occurs_at(bytes, pattern, earlier);
        lemma_first_occurrence_exists(bytes, pattern, earlier);
    } else {
        assert(first_at(bytes, pattern, at));
        lemma_first_at_unique(bytes, pattern, at);
    }
}

/// Without any occurrence there is no first one.
pub proof fn lemma_first_occurrence_none(bytes: Seq<u8>, pattern: Seq<u8>)
    ensures
        first_occurrence(bytes, pattern) is None <==> !contains_pattern(bytes, pattern),
{
    if contains_pattern(bytes, pattern) {
        let at = choose|at: int| occurs_at(bytes, pattern, at);
        lemma_first_occurrence_exists(bytes, pattern, at);
    }
    if first_occurrence(bytes, pattern) is Some {
        let at = first_occurrence(bytes, pattern)->Some_0;
        assert(first_at(bytes, pattern, at));
        assert(occurs_at(bytes, pattern, at));
    }
}

/// Whether `pattern` stands in `bytes` at index `at`.
fn matches_at(bytes: &[u8], pattern: &[u8], at: usize) -> (matches: bool)
    requires
        at + pattern.len() <= bytes.len(),
    ensures
        matches == occurs_at(bytes@, pattern@, at as int),
{
    let mut k: usize = 0;
    while k < pattern.len()
        invariant
            at + pattern.len() <= bytes.len(),
            k <= pattern.len(),
            forall|j: int| 0 <= j < k ==> bytes@[at + j] == pattern@[j],
        decreases pattern.len() - k,
    {
        if bytes[at + k] != pattern[k] {
            assert(bytes@.subrange(at as int, at + pattern@.len())[k as int] != pattern@[k as int]);
            return false;
        }
        k += 1;
    }
    assert(bytes@.subrange(at as int, at + pattern@.len()) =~= pattern@);
    true
}

/// Finds the first occurrence of `pattern` in `bytes`. The empty pattern
/// occurs at index 0 of every byte string.
pub fn find_pattern(bytes: &[u8], pattern: &[u8]) -> (found: Option<usize>)
    ensures
        found matches Some(at) ==> first_occurrence(bytes@, pattern@) == Some(at as int)
            && first_at(bytes@, pattern@, at as int),
        found is None ==> first_occurrence(bytes@, pattern@) is None && !contains_pattern(
            bytes@,
            pattern@,
        ),
{
    if pattern.len() > bytes.len() {
        proof {
            lemma_first_occurrence_none(bytes@, pattern@);
        }
        return None;
    }
    let last: usize = bytes.len() - pattern.len();
    let mut at: usize = 0;
    loop
        invariant
            last == bytes.len() - pattern.len(),
            at <= last,
            forall|earlier: int| 0 <= earlier < at ==> !occurs_at(bytes@, pattern@, earlier),
        decreases last - at,
    {
        if matches_at(bytes, pattern, at) {
            proof {
                lemma_first_at_unique(bytes@, pattern@, at as int);
            }
            return Some(at);
        }
        if at == last {
            proof {
                lemma_first_occurrence_none(bytes@, pattern@);
            }
            return None;
        }
        at += 1;
    }
}

/// `bytes` followed by `delimiter`: the unit that is written for one frame.
pub fn delimited(bytes: &[u8], delimiter: &[u8]) -> (framed: Vec<u8>)
    ensures
        framed@ == bytes@ + delimiter@,
{
    let mut framed: Vec<u8> = Vec::new();
    framed.extend_from_slice(bytes);
    framed.extend_from_slice(delimiter);
    assert(framed@ =~= bytes@ + delimiter@);
    framed
}

/// What one read of the transport came to.
#[derive(Debug, PartialEq, Eq)]
pub enum ReadOutcome {
    /// The bytes that the read brought: none where the stream has stalled or
    /// is closed.
    Data(Vec<u8>),
    /// The read was interrupted before it brought anything.
    Interrupted,
    /// The transport failed.
    Failed,
}

/// What the owner of the transport does after a read.
#[derive(Debug, PartialEq, Eq)]
pub enum ReadStep {
    /// Hands out this frame.
    Frame(Vec<u8>),
    /// Reads again.
    Again,
    /// Gives up and reports the failure of the transport.
    Abort,
}

/// Model of a [`ReadOutcome`].
pub enum OutcomeView {
    Data(Seq<u8>),
    Interrupted,
    Failed,
}

/// Model of a [`ReadStep`].
pub enum StepView {
    Frame(Seq<u8>),
    Again,
    Abort,
}

impl View for ReadOutcome {
    type V = OutcomeView;

    open spec fn view(&self) -> OutcomeView {
        match self {
            ReadOutcome::Data(chunk) => OutcomeView::Data(chunk@),
            ReadOutcome::Interrupted => OutcomeView::Interrupted,
            ReadOutcome::Failed => OutcomeView::Failed,
        }
    }
}

impl View for ReadStep {
    type V = StepView;

    open spec fn view(&self) -> StepView {
        match self {
            ReadStep::Frame(frame) => StepView::Frame(frame@),
            ReadStep::Again => StepView::Again,
            ReadStep::Abort => StepView::Abort,
        }
    }
}

/// The step that follows a read, and the bytes that stay behind.
///
/// Bytes that arrive join those already held, and the delimiter is looked
/// for in all of them. A read without bytes ends the wait: what is held
/// goes out as it is, delimiter or not. An interrupted read is tried again,
/// a failed one ends the attempt; neither touches the bytes held.
pub open spec fn read_step(pending: Seq<u8>, outcome: OutcomeView, delimiter: Seq<u8>) -> (
    StepView,
    Seq<u8>,
) {
    match outcome {
        OutcomeView::Interrupted => (StepView::Again, pending),
        OutcomeView::Failed => (StepView::Abort, pending),
        OutcomeView::Data(chunk) => {
            let buffer = pending + chunk;
            match split_frame(buffer, delimiter) {
                Some((frame, rest)) => (StepView::Frame(frame), rest),
                None => if chunk.len() == 0 {
                    (StepView::Frame(buffer), Seq::empty())
                } else {
                    (StepView::Again, buffer)
                },
            }
        },
    }
}

/// A frame that is cut off makes up the buffer together with the rest, ends
/// with the delimiter and holds it nowhere earlier.
pub proof fn lemma_split_frame(buffer: Seq<u8>, delimiter: Seq<u8>)
    requires
        split_frame(buffer, delimiter) is Some,
    ensures
        ({
            let (frame, rest) = split_frame(buffer, delimiter)->Some_0;
            &&& frame + rest == buffer
            &&& frame.len() >= delimiter.len()
            &&& first_at(frame, delimiter, frame.len() - delimiter.len())
        }),
{
    let (frame, rest) = split_frame(buffer, delimiter)->Some_0;
    let at = first_occurrence(buffer, delimiter)->Some_0;
    assert(first_at(buffer, delimiter, at));
    assert(frame + rest =~= buffer);
    assert(frame.subrange(at, at + delimiter.len()) =~= buffer.subrange(
        at,
        at + delimiter.len(),
    ));
    assert forall|earlier: int| 0 <= earlier < at implies !occurs_at(
        frame,
        delimiter,
        earlier,
    ) by {
        if occurs_at(frame, delimiter, earlier) {
            assert(buffer.subrange(earlier, earlier + delimiter.len()) =~= frame.subrange(
                earlier,
                earlier + delimiter.len(),
            ));
            assert(occurs_at(buffer, delimiter, earlier));
        }
    }
}

/// How the bytes are cut into reads does not matter: while no delimiter has
/// arrived, two reads that bring bytes lead where one read that brings the
/// bytes of both would have led.
pub proof fn lemma_read_in_two(
    pending: Seq<u8>,
    first: Seq<u8>,
    second: Seq<u8>,
    delimiter: Seq<u8>,
)
    requires
        first.len() > 0,
        second.len() > 0,
        !contains_pattern(pending + first, delimiter),
    ensures
        read_step(pending, OutcomeView::Data(first), delimiter) == (
            StepView::Again,
            pending + first,
        ),
        read_step(pending + first, OutcomeView::Data(second), delimiter) == read_step(
            pending,
            OutcomeView::Data(first + second),
            delimiter,
        ),
{
    lemma_first_occurrence_none(pending + first, delimiter);
    assert((pending + first) + second =~= pending + (first + second));
}

/// The bytes received from a transport and not handed out yet.
pub struct FrameReader {
    pending: Vec<u8>,
}

impl View for FrameReader {
    type V = Seq<u8>;

    closed spec fn view(&self) -> Seq<u8> {
        self.pending@
    }
}

impl FrameReader {
    /// A reader that holds no bytes.
    pub fn new() -> (reader: Self)
        ensures
            reader@ == Seq::<u8>::empty(),
    {
        FrameReader { pending: Vec::new() }
    }

    /// The bytes held.
    pub fn pending(&self) -> (bytes: &[u8])
        ensures
            bytes@ == self@,
    {
        self.pending.as_slice()
    }

    /// Takes the first frame out of the bytes held, if they hold a
    /// delimiter; what follows the frame stays.
    pub fn next_frame(&mut self, delimiter: &[u8]) -> (frame: Option<Vec<u8>>)
        ensures
            match split_frame(old(self)@, delimiter@) {
                Some((head, rest)) => frame matches Some(bytes) && bytes@ == head && final(self)@
                    == rest,
                None => frame is None && final(self)@ == old(self)@,
            },
    {
        match find_pattern(self.pending.as_slice(), delimiter) {
            Some(at) => {
                let held: usize = self.pending.len();
                assert(at + delimiter@.len() <= held) by {
                    assert(occurs_at(self.pending@, delimiter@, at as int));
                }
                let end: usize = at + delimiter.len();
                let mut frame = self.pending.split_off(end);
                std::mem::swap(&mut self.pending, &mut frame);
                Some(frame)
            },
            None => None,
        }
    }

    /// Takes in what a read of the transport came to and says what to do
    /// next.
    pub fn on_read(&mut self, outcome: ReadOutcome, delimiter: &[u8]) -> (step: ReadStep)
        ensures
            (step@, final(self)@) == read_step(old(self)@, outcome@, delimiter@),
    {
        match outcome {
            ReadOutcome::Interrupted => ReadStep::Again,
            ReadOutcome::Failed => ReadStep::Abort,
            ReadOutcome::Data(chunk) => {
                self.pending.extend_from_slice(chunk.as_slice());
                assert(self.pending@ =~= old(self)@ + chunk@);
                match self.next_frame(delimiter) {
                    Some(frame) => ReadStep::Frame(frame),
                    None => {
                        if chunk.len() == 0 {
                            let mut held: Vec<u8> = Vec::new();
                            std::mem::swap(&mut self.pending, &mut held);
                            ReadStep::Frame(held)
                        } else {
                            ReadStep::Again
                        }
                    },
                }
            },
        }
    }
}

} // verus!
