use vstd::prelude::*;

verus! {

/// The byte that ends each record of the log.
pub const NEWLINE: u8 = 10;

/// `spans` cuts `log` into its records, in order: each record is a run of
/// bytes without a newline, followed by a newline; only the last record may
/// end at the end of the log instead.
pub open spec fn frames(log: Seq<u8>, spans: Seq<(usize, usize)>) -> bool {
    &&& spans.len() == 0 <==> log.len() == 0
    &&& spans.len() > 0 ==> spans[0].0 == 0 && spans.last().1 == log.len()
    &&& forall|i: int| 0 <= i < spans.len() ==> #[trigger] spans[i].0 < spans[i].1
    &&& forall|i: int| 0 <= i < spans.len() - 1 ==> #[trigger] spans[i].1 == spans[i + 1].0
    &&& forall|i: int| 0 <= i < spans.len() - 1 ==> log[#[trigger] spans[i].1 - 1] == NEWLINE
    &&& forall|i: int, p: int|
        #![trigger spans[i], log[p]]
        0 <= i < spans.len() && spans[i].0 <= p < spans[i].1 - 1 ==> log[p] != NEWLINE
}

/// Cuts the log into its records, each given as the range `start..end` of
/// its bytes, the newline included. Record `i` begins at byte `spans[i].0`.
pub fn split_records(log: &Vec<u8>) -> (spans: Vec<(usize, usize)>)
    ensures
        frames(log@, spans@),
{
    let mut spans: Vec<(usize, usize)> = Vec::new();
    let mut start: usize = 0;
    let mut i: usize = 0;
    while i < log.len()
        invariant
            start <= i <= log.len(),
            spans.len() == 0 ==> start == 0,
            spans.len() > 0 ==> spans@[0].0 == 0 && spans@.last().1 == start,
            forall|j: int| 0 <= j < spans.len() ==> #[trigger] spans[j].0 < spans[j].1,
            forall|j: int| 0 <= j < spans.len() ==> #[trigger] spans[j].1 <= start,
            forall|j: int| 0 <= j < spans.len() - 1 ==> #[trigger] spans[j].1 == spans[j + 1].0,
            forall|j: int| 0 <= j < spans.len() ==> log@[#[trigger] spans[j].1 - 1] == NEWLINE,
            forall|j: int, p: int|
                #![trigger spans@[j], log@[p]]
                0 <= j < spans.len() && spans@[j].0 <= p < spans@[j].1 - 1 ==> log@[p] != NEWLINE,
            forall|p: int| start <= p < i ==> log@[p] != NEWLINE,
        decreases log.len() - i,
    {
        if log[i] == NEWLINE {
            spans.push((start, i + 1));
            start = i + 1;
        }
        i = i + 1;
    }
    if start < log.len() {
        spans.push((start, log.len()));
    }
    spans
}

} // verus!
