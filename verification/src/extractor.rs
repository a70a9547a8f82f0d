//! Extraction of pakets from a stream of bytes.
use crate::error::UnusualEmptyEntity;
use crate::message::Message;
use crate::text::{decimal, decimal_text};
use vstd::prelude::*;

verus! {

/// Whether the end delimiter occurs in the bytes.
pub open spec fn has_end(bytes: Seq<u8>) -> bool {
    bytes.contains(Message::PAKET_END_U8)
}

/// Whether the bytes end with the end delimiter, which occurs nowhere else in them.
pub open spec fn ends_once(bytes: Seq<u8>) -> bool {
    &&& bytes.len() > 0
    &&& bytes.last() == Message::PAKET_END_U8
    &&& !has_end(bytes.drop_last())
}

/// The bytes cut behind each end delimiter: the pakets that are finished, in order, and what
/// stands behind the last of them.
pub open spec fn cut(bytes: Seq<u8>) -> (Seq<Seq<u8>>, Seq<u8>)
    decreases bytes.len(),
{
    if bytes.len() == 0 {
        (Seq::empty(), Seq::empty())
    } else {
        let (finished, fragment) = cut(bytes.drop_last());
        if bytes.last() == Message::PAKET_END_U8 {
            (finished.push(fragment.push(bytes.last())), Seq::empty())
        } else {
            (finished, fragment.push(bytes.last()))
        }
    }
}

/// The finished pakets of the bytes.
pub open spec fn pakets_of(bytes: Seq<u8>) -> Seq<Seq<u8>> {
    cut(bytes).0
}

/// What stands behind the last finished paket of the bytes.
pub open spec fn fragment_of(bytes: Seq<u8>) -> Seq<u8> {
    cut(bytes).1
}

/// What stands behind the first end delimiter of the bytes.
pub open spec fn after_first_end(bytes: Seq<u8>) -> Seq<u8>
    decreases bytes.len(),
{
    if bytes.len() == 0 {
        bytes
    } else if bytes[0] == Message::PAKET_END_U8 {
        bytes.drop_first()
    } else {
        after_first_end(bytes.drop_first())
    }
}

/// Whether the bytes are more than a paket may have.
pub open spec fn is_too_long(bytes: Seq<u8>) -> bool {
    bytes.len() > Message::MAX_PAKET_U8_LEN
}

/// The pakets that are not too long, in order.
pub open spec fn fitting(pakets: Seq<Seq<u8>>) -> Seq<Seq<u8>> {
    pakets.filter(|paket: Seq<u8>| !is_too_long(paket))
}

/// The pakets that are too long, in order.
pub open spec fn too_long(pakets: Seq<Seq<u8>>) -> Seq<Seq<u8>> {
    pakets.filter(|paket: Seq<u8>| is_too_long(paket))
}

/// What the extractor has to tell apart from the pakets.
#[derive(Debug, PartialEq)]
pub enum ExtractorReport {
    /// A too long paket arrived, or as many bytes of it. Such paket is dropped.
    TooLongPaket { paket_u8_len: usize },
    /// Something was empty that should not have been.
    Unusual(UnusualEmptyEntity),
}

impl ExtractorReport {
    /// The text in which the report is shown.
    pub open spec fn shown(&self) -> Seq<char> {
        match *self {
            ExtractorReport::TooLongPaket { paket_u8_len } => {
                "A too long paket arrived, it had "@ + decimal(paket_u8_len as nat)
                    + " bytes. Such paket will be dropped."@
            },
            ExtractorReport::Unusual(unusual) => unusual.shown(),
        }
    }

    /// The text in which the report is shown.
    pub fn text(&self) -> (r: String)
        ensures
            r@ == self.shown(),
    {
        match self {
            ExtractorReport::TooLongPaket { paket_u8_len } => {
                "A too long paket arrived, it had ".to_owned().concat(
                    decimal_text(*paket_u8_len).as_str(),
                ).concat(" bytes. Such paket will be dropped.")
            },
            ExtractorReport::Unusual(unusual) => unusual.text(),
        }
    }
}

/// The reports of too long pakets.
pub open spec fn reports_of(pakets: Seq<Seq<u8>>) -> Seq<ExtractorReport> {
    pakets.map_values(
        |paket: Seq<u8>| ExtractorReport::TooLongPaket { paket_u8_len: paket.len() as usize },
    )
}

/// What came out of a buffer: the finished pakets, to be forwarded in this order, and what there
/// is to report.
#[derive(Debug, PartialEq)]
pub struct ProcessedBuffer {
    pub pakets: Vec<Vec<u8>>,
    pub reports: Vec<ExtractorReport>,
}

impl ProcessedBuffer {
    /// The pakets to be forwarded.
    pub open spec fn forwarded(&self) -> Seq<Seq<u8>> {
        self.pakets@.map_values(|paket: Vec<u8>| paket@)
    }
}

/// What reading from the connection gave.
#[derive(Debug, PartialEq)]
pub enum ReadEvent {
    /// The bytes that were read: none where the connection was interrupted.
    Read { buffer: Vec<u8> },
    /// The read failed.
    Failed,
    /// The extraction was cancelled before anything was read.
    Cancelled,
}

/// What to do next.
#[derive(Debug, PartialEq)]
pub enum ExtractorAction {
    /// Forward the pakets, report what there is to report, and read on.
    Continue(ProcessedBuffer),
    /// Stop successfully.
    StopCancelled,
    /// Report that the connection was interrupted, and stop successfully.
    StopInterrupted,
    /// Stop with the error of the read.
    StopFailed,
}

/// The extractor of pakets: the fragment of a paket that is not yet finished, and whether the
/// paket that is arriving is being dropped.
#[derive(Debug)]
pub struct PaketsExtractor {
    previous_fragment: Vec<u8>,
    reinitialising: bool,
}

/// The state of an extractor.
#[verifier::ext_equal]
pub struct ExtractorView {
    pub previous_fragment: Seq<u8>,
    pub reinitialising: bool,
}

impl ExtractorView {
    /// The fragment of a paket holds no end delimiter and is not too long, and a paket that is
    /// being dropped leaves no fragment.
    pub open spec fn well_formed(self) -> bool {
        &&& !has_end(self.previous_fragment)
        &&& !is_too_long(self.previous_fragment)
        &&& self.reinitialising ==> self.previous_fragment.len() == 0
    }

    /// Nothing has been read yet.
    pub open spec fn initial() -> ExtractorView {
        ExtractorView { previous_fragment: Seq::empty(), reinitialising: false }
    }

    /// The fragment of a paket has arrived: it is kept, unless it is too long already.
    pub open spec fn of_fragment(fragment: Seq<u8>) -> ExtractorView {
        if is_too_long(fragment) {
            ExtractorView { previous_fragment: Seq::empty(), reinitialising: true }
        } else {
            ExtractorView { previous_fragment: fragment, reinitialising: false }
        }
    }
}

/// Whether the reports are those for the bytes of a buffer, with the fragment before it, while no
/// paket is being dropped: one for each finished paket that is too long, and one for the fragment
/// if it is too long.
pub open spec fn are_reports(
    fragment: Seq<u8>,
    buffer: Seq<u8>,
    reports: Seq<ExtractorReport>,
) -> bool {
    if buffer.len() == 0 {
        &&& reports.len() == 1
        &&& reports[0] matches ExtractorReport::Unusual(unusual)
        &&& unusual.entity@ == "actual_fragments"@
    } else {
        reports == reports_of(
            too_long(pakets_of(fragment + buffer).push(fragment_of(fragment + buffer))),
        )
    }
}

/// The state after a buffer.
pub open spec fn after_read(state: ExtractorView, buffer: Seq<u8>) -> ExtractorView {
    if !state.reinitialising {
        ExtractorView::of_fragment(fragment_of(state.previous_fragment + buffer))
    } else if has_end(buffer) {
        ExtractorView::of_fragment(fragment_of(after_first_end(buffer)))
    } else {
        state
    }
}

/// The pakets that a buffer finishes and that are forwarded.
pub open spec fn forwarded_on_read(state: ExtractorView, buffer: Seq<u8>) -> Seq<Seq<u8>> {
    if !state.reinitialising {
        fitting(pakets_of(state.previous_fragment + buffer))
    } else if has_end(buffer) {
        fitting(pakets_of(after_first_end(buffer)))
    } else {
        Seq::empty()
    }
}

/// Whether the reports are those for a buffer. The paket that is being dropped has been reported
/// before.
pub open spec fn are_reports_on_read(
    state: ExtractorView,
    buffer: Seq<u8>,
    reports: Seq<ExtractorReport>,
) -> bool {
    if !state.reinitialising {
        are_reports(state.previous_fragment, buffer, reports)
    } else if has_end(buffer) && after_first_end(buffer).len() > 0 {
        are_reports(Seq::empty(), after_first_end(buffer), reports)
    } else {
        reports.len() == 0
    }
}

/// The step for what reading from the connection gave.
pub open spec fn is_extractor_step(
    before: ExtractorView,
    event: ReadEvent,
    after: ExtractorView,
    action: ExtractorAction,
) -> bool {
    match event {
        ReadEvent::Read { buffer } => if buffer@.len() == 0 {
            action == ExtractorAction::StopInterrupted && after == before
        } else {
            &&& after == after_read(before, buffer@)
            &&& action matches ExtractorAction::Continue(processed)
            &&& processed.forwarded() == forwarded_on_read(before, buffer@)
            &&& are_reports_on_read(before, buffer@, processed.reports@)
        },
        ReadEvent::Failed => action == ExtractorAction::StopFailed && after == before,
        ReadEvent::Cancelled => action == ExtractorAction::StopCancelled && after == before,
    }
}

/// Bytes without an end delimiter are all fragment.
pub proof fn lemma_cut_without_end(bytes: Seq<u8>)
    requires
        !has_end(bytes),
    ensures
        cut(bytes) == (Seq::<Seq<u8>>::empty(), bytes),
    decreases bytes.len(),
{
    if bytes.len() > 0 {
        assert(bytes.contains(bytes.last()));
        assert forall|b: u8| bytes.drop_last().contains(b) implies bytes.contains(b) by {
            let i = choose|i: int| 0 <= i < bytes.drop_last().len() && bytes.drop_last()[i] == b;
            assert(bytes[i] == b);
        }
        lemma_cut_without_end(bytes.drop_last());
        assert(bytes.drop_last().push(bytes.last()) =~= bytes);
    }
}

/// How one more byte changes the cut.
proof fn lemma_cut_push(bytes: Seq<u8>, byte: u8)
    ensures
        cut(bytes.push(byte)) == if byte == Message::PAKET_END_U8 {
            (pakets_of(bytes).push(fragment_of(bytes).push(byte)), Seq::empty())
        } else {
            (pakets_of(bytes), fragment_of(bytes).push(byte))
        },
{
    assert(bytes.push(byte).drop_last() =~= bytes);
}

/// What stands behind the end delimiter at the index `k`, if there is none before.
proof fn lemma_after_first_end(bytes: Seq<u8>, k: int)
    requires
        0 <= k < bytes.len(),
        bytes[k] == Message::PAKET_END_U8,
        forall|i: int| 0 <= i < k ==> bytes[i] != Message::PAKET_END_U8,
    ensures
        after_first_end(bytes) == bytes.skip(k + 1),
    decreases k,
{
    if k > 0 {
        lemma_after_first_end(bytes.drop_first(), k - 1);
        assert(bytes.drop_first().skip(k) =~= bytes.skip(k + 1));
    } else {
        assert(bytes.drop_first() =~= bytes.skip(1));
    }
}

/// The fragment of any bytes holds no end delimiter.
pub proof fn lemma_fragment_without_end(bytes: Seq<u8>)
    ensures
        !has_end(fragment_of(bytes)),
    decreases bytes.len(),
{
    if bytes.len() > 0 {
        lemma_fragment_without_end(bytes.drop_last());
        let f = fragment_of(bytes.drop_last());
        if bytes.last() != Message::PAKET_END_U8 {
            assert forall|i: int| 0 <= i < f.push(bytes.last()).len() implies f.push(
                bytes.last(),
            )[i] != Message::PAKET_END_U8 by {
                if i < f.len() {
                    assert(f.contains(f[i]));
                }
            }
        }
    }
}

/// One more paket is either forwarded or reported.
proof fn lemma_sorted_out(pakets: Seq<Seq<u8>>, paket: Seq<u8>)
    ensures
        is_too_long(paket) ==> {
            &&& fitting(pakets.push(paket)) == fitting(pakets)
            &&& too_long(pakets.push(paket)) == too_long(pakets).push(paket)
        },
        !is_too_long(paket) ==> {
            &&& fitting(pakets.push(paket)) == fitting(pakets).push(paket)
            &&& too_long(pakets.push(paket)) == too_long(pakets)
        },
        reports_of(too_long(pakets).push(paket)) == reports_of(too_long(pakets)).push(
            ExtractorReport::TooLongPaket { paket_u8_len: paket.len() as usize },
        ),
{
    pakets.lemma_filter_push(paket, |p: Seq<u8>| !is_too_long(p));
    pakets.lemma_filter_push(paket, |p: Seq<u8>| is_too_long(p));
    assert(reports_of(too_long(pakets).push(paket)) =~= reports_of(too_long(pakets)).push(
        ExtractorReport::TooLongPaket { paket_u8_len: paket.len() as usize },
    ));
}

impl View for PaketsExtractor {
    type V = ExtractorView;

    closed spec fn view(&self) -> ExtractorView {
        ExtractorView {
            previous_fragment: self.previous_fragment@,
            reinitialising: self.reinitialising,
        }
    }
}

impl PaketsExtractor {
    /// The state is well formed.
    #[verifier::type_invariant]
    pub open spec fn well_formed(&self) -> bool {
        self@.well_formed()
    }

    /// An extractor that has read nothing yet.
    pub fn new() -> (r: PaketsExtractor)
        ensures
            r@ == ExtractorView::initial(),
            r@.well_formed(),
    {
        PaketsExtractor { previous_fragment: Vec::new(), reinitialising: false }
    }

    /// Whether the paket that is arriving is being dropped.
    pub fn is_reinitialising(&self) -> (r: bool)
        ensures
            r == self@.reinitialising,
    {
        self.reinitialising
    }

    /// Cuts what has been read into pakets. The bytes behind the last end delimiter are kept for
    /// the next buffer. A paket that is too long is not among those to be forwarded. Where the
    /// fragment of a paket is too long already, it is given up, and the rest of that paket is
    /// going to be dropped.
    pub fn process_pakets_buffer(&mut self, buffer: &Vec<u8>) -> (r: ProcessedBuffer)
        requires
            !old(self)@.reinitialising,
        ensures
            final(self)@.well_formed(),
            final(self)@ == after_read(old(self)@, buffer@),
            r.forwarded() == fitting(pakets_of(old(self)@.previous_fragment + buffer@)),
            are_reports(old(self)@.previous_fragment, buffer@, r.reports@),
    {
        proof {
            use_type_invariant(&*self);
        }
        let ghost previous = self.previous_fragment@;
        let len: usize = buffer.len();
        let mut pakets: Vec<Vec<u8>> = Vec::new();
        let mut reports: Vec<ExtractorReport> = Vec::new();
        proof {
            lemma_cut_without_end(previous);
        }
        assert(pakets@.map_values(|paket: Vec<u8>| paket@) =~= Seq::empty());
        assert(fitting(Seq::empty()) =~= Seq::empty());
        assert(too_long(Seq::empty()) =~= Seq::empty());
        if len == 0 {
            assert(previous + buffer@ =~= previous);
            reports.push(
                ExtractorReport::Unusual(
                    UnusualEmptyEntity { entity: "actual_fragments".to_owned() },
                ),
            );
            return ProcessedBuffer { pakets, reports };
        }
        let mut fragment: Vec<u8> = Vec::new();
        std::mem::swap(&mut fragment, &mut self.previous_fragment);
        let mut i: usize = 0;
        assert(previous + buffer@.take(0) =~= previous);
        assert(reports@ =~= reports_of(too_long(Seq::empty())));
        while i < len
            invariant
                len == buffer.len(),
                i <= len,
                pakets@.map_values(|paket: Vec<u8>| paket@) == fitting(
                    pakets_of(previous + buffer@.take(i as int)),
                ),
                reports@ == reports_of(too_long(pakets_of(previous + buffer@.take(i as int)))),
                fragment@ == fragment_of(previous + buffer@.take(i as int)),
            decreases len - i,
        {
            let byte: u8 = buffer[i];
            let ghost before = buffer@.take(i as int);
            let ghost finished = pakets_of(previous + before);
            proof {
                assert(buffer@.take(i + 1) =~= before.push(byte));
                assert(previous + before.push(byte) =~= (previous + before).push(byte));
                lemma_cut_push(previous + before, byte);
            }
            fragment.push(byte);
            if byte == Message::PAKET_END_U8 {
                let ghost earlier = pakets@;
                proof {
                    lemma_sorted_out(finished, fragment@);
                }
                let paket_u8_len: usize = fragment.len();
                if paket_u8_len > Message::MAX_PAKET_U8_LEN {
                    reports.push(ExtractorReport::TooLongPaket { paket_u8_len });
                } else {
                    pakets.push(fragment);
                    assert(pakets@.map_values(|paket: Vec<u8>| paket@) =~= earlier.map_values(
                        |paket: Vec<u8>| paket@,
                    ).push(pakets@.last()@));
                }
                fragment = Vec::new();
            }
            i += 1;
        }
        assert(buffer@.take(len as int) =~= buffer@);
        proof {
            lemma_fragment_without_end(previous + buffer@);
            lemma_sorted_out(pakets_of(previous + buffer@), fragment@);
        }
        let fragment_len: usize = fragment.len();
        if fragment_len > Message::MAX_PAKET_U8_LEN {
            reports.push(ExtractorReport::TooLongPaket { paket_u8_len: fragment_len });
            self.reinitialising = true;
        } else {
            self.previous_fragment = fragment;
        }
        ProcessedBuffer { pakets, reports }
    }

    /// Drops what has been read up to the end of the paket that is being dropped, and cuts what
    /// stands behind it into pakets.
    pub fn reinitialize_previous_fragment(&mut self, buffer: &Vec<u8>) -> (r: ProcessedBuffer)
        requires
            old(self)@.reinitialising,
        ensures
            final(self)@.well_formed(),
            final(self)@ == after_read(old(self)@, buffer@),
            r.forwarded() == forwarded_on_read(old(self)@, buffer@),
            are_reports_on_read(old(self)@, buffer@, r.reports@),
    {
        proof {
            use_type_invariant(&*self);
        }
        let len: usize = buffer.len();
        let mut k: usize = 0;
        while k < len && buffer[k] != Message::PAKET_END_U8
            invariant
                len == buffer.len(),
                k <= len,
                forall|i: int| 0 <= i < k ==> buffer@[i] != Message::PAKET_END_U8,
            decreases len - k,
        {
            k += 1;
        }
        let pakets: Vec<Vec<u8>> = Vec::new();
        let reports: Vec<ExtractorReport> = Vec::new();
        assert(pakets@.map_values(|paket: Vec<u8>| paket@) =~= Seq::empty());
        assert(fitting(Seq::empty()) =~= Seq::empty());
        if k == len {
            return ProcessedBuffer { pakets, reports };
        }
        proof {
            assert(buffer@.contains(buffer@[k as int]));
            lemma_after_first_end(buffer@, k as int);
        }
        let mut rest: Vec<u8> = Vec::new();
        rest.extend_from_slice(&buffer[k + 1..len]);
        assert(rest@ =~= after_first_end(buffer@));
        self.reinitialising = false;
        assert(self@ =~= ExtractorView::initial());
        assert(self@.previous_fragment =~= Seq::empty());
        assert(self@.previous_fragment + rest@ =~= rest@);
        if rest.len() == 0 {
            return ProcessedBuffer { pakets, reports };
        }
        self.process_pakets_buffer(&rest)
    }

    /// Decides what to do about what reading from the connection gave.
    pub fn step(&mut self, event: ReadEvent) -> (r: ExtractorAction)
        ensures
            final(self)@.well_formed(),
            is_extractor_step(old(self)@, event, final(self)@, r),
    {
        proof {
            use_type_invariant(&*self);
        }
        match event {
            ReadEvent::Read { buffer } => {
                if buffer.len() == 0 {
                    ExtractorAction::StopInterrupted
                } else if self.reinitialising {
                    ExtractorAction::Continue(self.reinitialize_previous_fragment(&buffer))
                } else {
                    ExtractorAction::Continue(self.process_pakets_buffer(&buffer))
                }
            },
            ReadEvent::Failed => ExtractorAction::StopFailed,
            ReadEvent::Cancelled => ExtractorAction::StopCancelled,
        }
    }
}

} // verus!
