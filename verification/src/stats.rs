//! Figures of a benchmark: the least, the greatest and the sum of what the
//! runs sent and received.

use vstd::prelude::*;

verus! {

/// The least, the greatest and the sum of some counts.
#[derive(Clone, Copy, Debug, PartialEq, Eq)]
pub struct Summary {
    pub count: usize,
    pub min: usize,
    pub max: usize,
    pub total: u128,
}

/// The sum of the counts.
pub open spec fn sum_of(values: Seq<usize>) -> nat
    decreases values.len(),
{
    if values.len() == 0 {
        0
    } else {
        sum_of(values.drop_last()) + values.last() as nat
    }
}

/// Whether `summary` holds the number of the counts, the least and the
/// greatest of them, and their sum.
pub open spec fn summarizes(summary: Summary, values: Seq<usize>) -> bool {
    &&& summary.count == values.len()
    &&& summary.total == sum_of(values)
    &&& forall|i: int|
        0 <= i < values.len() ==> summary.min <= (#[trigger] values[i]) && values[i]
            <= summary.max
    &&& exists|i: int| 0 <= i < values.len() && #[trigger] values[i] == summary.min
    &&& exists|i: int| 0 <= i < values.len() && #[trigger] values[i] == summary.max
}

/// The counts that were sent and the counts that were received.
pub open spec fn sent_of(send_receive: Seq<(usize, usize)>) -> Seq<usize> {
    Seq::new(send_receive.len(), |i: int| send_receive[i].0)
}

/// The counts that were received.
pub open spec fn received_of(send_receive: Seq<(usize, usize)>) -> Seq<usize> {
    Seq::new(send_receive.len(), |i: int| send_receive[i].1)
}

/// The summary of the counts, or `None` where there is none.
pub fn summarize(values: &Vec<usize>) -> (r: Option<Summary>)
    ensures
        r.is_some() == (values@.len() > 0),
        r.is_some() ==> summarizes(r.unwrap(), values@),
{
    if values.len() == 0 {
        return None;
    }
    let mut min = values[0];
    let mut max = values[0];
    let mut total: u128 = values[0] as u128;
    let mut i: usize = 1;
    assert(values@.take(1).drop_last() =~= Seq::<usize>::empty());
    assert(sum_of(Seq::<usize>::empty()) == 0);
    assert(values@.take(1).last() == values@[0]);
    assert(sum_of(values@.take(1)) == values@[0]);
    while i < values.len()
        invariant
            1 <= i <= values@.len(),
            total == sum_of(values@.take(i as int)),
            total <= i * usize::MAX,
            forall|j: int| 0 <= j < i ==> min <= (#[trigger] values@[j]) && values@[j] <= max,
            exists|j: int| 0 <= j < i && #[trigger] values@[j] == min,
            exists|j: int| 0 <= j < i && #[trigger] values@[j] == max,
        decreases values@.len() - i,
    {
        let value = values[i];
        assert(values@.take(i + 1).drop_last() =~= values@.take(i as int));
        assert((i + 1) * usize::MAX == i * usize::MAX + usize::MAX) by (nonlinear_arith);
        assert(i * usize::MAX + usize::MAX <= u128::MAX) by (nonlinear_arith)
            requires
                i < usize::MAX,
        ;
        total = total + value as u128;
        if value < min {
            min = value;
        }
        if value > max {
            max = value;
        }
        i += 1;
    }
    assert(values@.take(values@.len() as int) =~= values@);
    Some(Summary { count: values.len(), min, max, total })
}

/// The summaries of what was sent and of what was received, or `None` where
/// there was no run.
pub fn summarize_send_receive(send_receive: &Vec<(usize, usize)>) -> (r: Option<
    (Summary, Summary),
>)
    ensures
        r.is_some() == (send_receive@.len() > 0),
        r.is_some() ==> summarizes(r.unwrap().0, sent_of(send_receive@)) && summarizes(
            r.unwrap().1,
            received_of(send_receive@),
        ),
{
    let mut sent: Vec<usize> = Vec::with_capacity(send_receive.len());
    let mut received: Vec<usize> = Vec::with_capacity(send_receive.len());
    let mut i: usize = 0;
    while i < send_receive.len()
        invariant
            i <= send_receive@.len(),
            sent@ == sent_of(send_receive@).take(i as int),
            received@ == received_of(send_receive@).take(i as int),
        decreases send_receive@.len() - i,
    {
        sent.push(send_receive[i].0);
        received.push(send_receive[i].1);
        assert(sent@ =~= sent_of(send_receive@).take(i + 1));
        assert(received@ =~= received_of(send_receive@).take(i + 1));
        i += 1;
    }
    assert(sent@ =~= sent_of(send_receive@));
    assert(received@ =~= received_of(send_receive@));
    match (summarize(&sent), summarize(&received)) {
        (Some(s), Some(r)) => Some((s, r)),
        _ => None,
    }
}

} // verus!
