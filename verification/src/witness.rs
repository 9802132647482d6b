//! The values that a party hands to the circuit: public field elements and
//! shares of secret ones.

use crate::data_structure::DepositValueShare;
use crate::field::FieldElement;
use crate::share::ReplicatedShare;
use vstd::prelude::*;

verus! {

/// What a witness value stands for.
pub enum WitnessView {
    /// A field element that every party knows.
    Public(nat),
    /// A party's share of a secret field element.
    Shared((nat, nat)),
}

/// One value of a party's input to the circuit.
#[derive(Clone, Copy, Debug, PartialEq, Eq)]
pub enum WitnessValue {
    /// A field element that every party knows.
    Public(FieldElement),
    /// The party's share of a secret field element.
    Shared(ReplicatedShare),
}

impl View for WitnessValue {
    type V = WitnessView;

    open spec fn view(&self) -> WitnessView {
        match self {
            WitnessValue::Public(value) => WitnessView::Public(value@),
            WitnessValue::Shared(share) => WitnessView::Shared(share@),
        }
    }
}

/// The trace of one hash: the values that the hash gadget of the circuit
/// needs, in its order.
pub type Trace = Vec<WitnessValue>;

/// The views of witness values.
pub open spec fn witness_views(values: Seq<WitnessValue>) -> Seq<WitnessView> {
    Seq::new(values.len(), |i: int| values[i]@)
}

/// The views of traces.
pub open spec fn trace_views(traces: Seq<Trace>) -> Seq<Seq<WitnessView>> {
    Seq::new(traces.len(), |i: int| witness_views(traces[i]@))
}

/// The amount of a balance that may be absent, as a party's share: the share
/// that is there, or the share of 0 with both summands 0.
pub open spec fn old_amount_share(old_value: Option<DepositValueShare>) -> (nat, nat) {
    match old_value {
        Some(value) => value.amount@,
        None => (0, 0),
    }
}

/// The blinding of a balance that may be absent, as a party's share.
pub open spec fn old_blinding_share(old_value: Option<DepositValueShare>) -> (nat, nat) {
    match old_value {
        Some(value) => value.blinding@,
        None => (0, 0),
    }
}

/// The amount of a balance that may be absent, as a witness value: the share
/// that is there, or the public value 0.
pub open spec fn old_amount_witness(old_value: Option<DepositValueShare>) -> WitnessView {
    match old_value {
        Some(value) => WitnessView::Shared(value.amount@),
        None => WitnessView::Public(0),
    }
}

/// The blinding of a balance that may be absent, as a witness value.
pub open spec fn old_blinding_witness(old_value: Option<DepositValueShare>) -> WitnessView {
    match old_value {
        Some(value) => WitnessView::Shared(value.blinding@),
        None => WitnessView::Public(0),
    }
}

/// A copy of a trace.
pub fn copy_trace(trace: &Trace) -> (r: Trace)
    ensures
        r@ == trace@,
{
    let mut copy: Vec<WitnessValue> = Vec::with_capacity(trace.len());
    let mut i: usize = 0;
    while i < trace.len()
        invariant
            i <= trace@.len(),
            copy@ == trace@.take(i as int),
        decreases trace@.len() - i,
    {
        copy.push(trace[i]);
        assert(trace@.take(i as int).push(trace@[i as int]) =~= trace@.take(i + 1));
        i += 1;
    }
    assert(trace@.take(trace@.len() as int) =~= trace@);
    copy
}

} // verus!
