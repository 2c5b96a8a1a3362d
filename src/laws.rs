//! Laws that relate rendering, parsing and the cell state machine.

use vstd::prelude::*;
use crate::cell::{run, step, CellModel, EventModel};
use crate::options::RenderOptions;
use crate::value::CellValue;

verus! {

/// A value whose default text keeps all of it parses back from that text.
pub proof fn round_trip<T: CellValue>(v: T::V)
    requires
        T::lossless(v),
    ensures
        T::parsed(T::rendered(v, RenderOptions::plain())) == Some(v),
{
    T::lemma_round_trip(v);
}

/// Edit text that does not parse changes nothing and hands nothing to the
/// change callback.
pub proof fn bad_input_is_ignored<T: CellValue>(m: CellModel<T::V>, text: Seq<char>)
    requires
        T::parsed(text) is None,
    ensures
        step::<T>(m, EventModel::Input(text)) == (m, None::<T::V>),
{
}

/// A cell that is not editable hands nothing to the change callback, whatever
/// events it takes, and never becomes editable or edited.
pub proof fn read_only_never_commits<T: CellValue>(m: CellModel<T::V>, events: Seq<EventModel<T::V>>)
    requires
        m.valid(),
        !m.editable,
    ensures
        !run::<T>(m, events).0.editable,
        !run::<T>(m, events).0.editing,
        run::<T>(m, events).1.len() == events.len(),
        forall|i: int| 0 <= i < events.len() ==> (#[trigger] run::<T>(m, events).1[i]) is None,
    decreases events.len(),
{
    if events.len() > 0 {
        read_only_never_commits::<T>(m, events.drop_last());
        let (before, out) = run::<T>(m, events.drop_last());
        assert forall|i: int| 0 <= i < events.len() implies (#[trigger] run::<T>(m, events).1[i]) is None by {
            if i < events.len() - 1 {
                assert(run::<T>(m, events).1[i] == out[i]);
            }
        }
    }
}

/// Entering an editable cell and typing text that parses to `w` hands `w` to
/// the change callback exactly once; once the table applies `w`, the cell
/// holds it and stays in edit.
pub proof fn edit_commits_once<T: CellValue>(m: CellModel<T::V>, text: Seq<char>, w: T::V)
    requires
        m.editable,
        T::parsed(text) == Some(w),
    ensures
        ({
            let events = seq![EventModel::Focus, EventModel::Input(text), EventModel::Replace(w)];
            run::<T>(m, events) == (
                CellModel { value: w, editing: true, ..m },
                seq![None, Some(w), None],
            )
        }),
{
    let events = seq![EventModel::<T::V>::Focus, EventModel::Input(text), EventModel::Replace(w)];
    assert(events.drop_last().drop_last().drop_last() =~= Seq::<EventModel<T::V>>::empty());
    assert(events.drop_last().drop_last() =~= seq![EventModel::<T::V>::Focus]);
    assert(events.drop_last() =~= seq![EventModel::<T::V>::Focus, EventModel::Input(text)]);
    let e0 = events.drop_last().drop_last();
    assert(run::<T>(m, e0.drop_last()) == (m, Seq::<Option<T::V>>::empty()));
    let r0 = run::<T>(m, e0);
    assert(r0.0 == CellModel { editing: true, ..m });
    assert(r0.1 =~= seq![None::<T::V>]);
    let r1 = run::<T>(m, events.drop_last());
    assert(r1.1 =~= seq![None::<T::V>, Some(w)]);
    assert(run::<T>(m, events).1 =~= seq![None::<T::V>, Some(w), None]);
}

} // verus!
