//! The cell state machine: display, in-place edit, and commit of parsed edits.

use vstd::prelude::*;
use crate::digits::push_char;
use crate::options::RenderOptions;
use crate::markup::Element;
use crate::value::CellValue;

verus! {

/// What a cell is, as its owner sees it.
pub struct CellModel<V> {
    pub class: Seq<char>,
    pub value: V,
    pub index: usize,
    pub editable: bool,
    pub options: RenderOptions,
    pub editing: bool,
}

impl<V> CellModel<V> {
    /// Only an editable cell is ever being edited.
    pub open spec fn valid(self) -> bool {
        self.editing ==> self.editable
    }
}

/// What happens to a cell.
pub enum CellEvent<T> {
    /// The cell is entered for editing.
    Focus,
    /// Editing ends.
    Blur,
    /// The edited text changed; carries the whole current text.
    Input(String),
    /// The table replaced the value.
    Replace(T),
    /// The column's render options changed.
    Reformat(RenderOptions),
}

pub enum EventModel<V> {
    Focus,
    Blur,
    Input(Seq<char>),
    Replace(V),
    Reformat(RenderOptions),
}

impl<T: View> View for CellEvent<T> {
    type V = EventModel<T::V>;

    open spec fn view(&self) -> EventModel<T::V> {
        match self {
            CellEvent::Focus => EventModel::Focus,
            CellEvent::Blur => EventModel::Blur,
            CellEvent::Input(s) => EventModel::Input(s@),
            CellEvent::Replace(v) => EventModel::Replace(v@),
            CellEvent::Reformat(o) => EventModel::Reformat(*o),
        }
    }
}

/// The next state of a cell after an event, and the value handed to the
/// change callback, if any. Only edited text that parses is handed on; the
/// cell's own value changes only when the table replaces it. A replacement
/// that arrives while the cell is being edited takes effect at once and does
/// not end the edit.
pub open spec fn step<T: CellValue>(m: CellModel<T::V>, e: EventModel<T::V>) -> (CellModel<T::V>, Option<T::V>) {
    match e {
        EventModel::Focus => (CellModel { editing: m.editable, ..m }, None),
        EventModel::Blur => (CellModel { editing: false, ..m }, None),
        EventModel::Input(text) => if m.editing {
            (m, T::parsed(text))
        } else {
            (m, None)
        },
        EventModel::Replace(v) => (CellModel { value: v, ..m }, None),
        EventModel::Reformat(o) => (CellModel { options: o, ..m }, None),
    }
}

/// The state after a run of events, and what each event handed on.
pub open spec fn run<T: CellValue>(m: CellModel<T::V>, events: Seq<EventModel<T::V>>) -> (CellModel<T::V>, Seq<Option<T::V>>)
    decreases events.len(),
{
    if events.len() == 0 {
        (m, Seq::empty())
    } else {
        let (before, out) = run::<T>(m, events.drop_last());
        let (after, o) = step::<T>(before, events.last());
        (after, out.push(o))
    }
}

pub open spec fn option_view<T: View>(r: Option<T>) -> Option<T::V> {
    match r {
        Some(v) => Some(v@),
        None => None,
    }
}

/// A table cell: its value, how it is shown, and whether it is being edited.
/// The text shown is kept and recomputed only when the value or the options
/// change.
pub struct TableCell<T> {
    class: String,
    value: T,
    index: usize,
    editable: bool,
    options: RenderOptions,
    editing: bool,
    text: String,
}

impl<T: CellValue> View for TableCell<T> {
    type V = CellModel<T::V>;

    closed spec fn view(&self) -> CellModel<T::V> {
        CellModel {
            class: self.class@,
            value: self.value@,
            index: self.index,
            editable: self.editable,
            options: self.options,
            editing: self.editing,
        }
    }
}

impl<T: CellValue> TableCell<T> {
    /// The kept text is the value's text under the options, and the model is valid.
    pub closed spec fn wf(&self) -> bool {
        &&& self.text@ == T::rendered(self.value@, self.options)
        &&& self@.valid()
    }

    /// A well-formed cell is being edited only if it is editable.
    pub proof fn lemma_valid(&self)
        requires
            self.wf(),
        ensures
            self@.valid(),
    {
    }

    pub fn new(class: String, value: T, index: usize, editable: bool, options: RenderOptions) -> (r: TableCell<T>)
        ensures
            r.wf(),
            r@ == (CellModel {
                class: class@,
                value: value@,
                index,
                editable,
                options,
                editing: false,
            }),
    {
        let text = value.render_value(&options);
        TableCell { class, value, index, editable, options, editing: false, text }
    }

    /// The text the cell shows.
    pub fn display_text(&self) -> (r: String)
        requires
            self.wf(),
        ensures
            r@ == T::rendered(self@.value, self@.options),
    {
        self.text.clone()
    }

    pub fn value(&self) -> (r: &T)
        ensures
            r@ == self@.value,
    {
        &self.value
    }

    pub fn is_editing(&self) -> (r: bool)
        ensures
            r == self@.editing,
    {
        self.editing
    }

    /// The cell's element: a `td` with the cell's class and shown text,
    /// editable in place while the cell is being edited.
    pub fn element(&self) -> (r: Element<String>)
        requires
            self.wf(),
        ensures
            r.tag@ == seq!['t', 'd'],
            r.class@ == self@.class,
            r.content_editable == self@.editing,
            r.node_ref is None,
            r.children@ == T::rendered(self@.value, self@.options),
    {
        let mut tag = String::new();
        push_char(&mut tag, 't');
        push_char(&mut tag, 'd');
        Element {
            tag,
            class: self.class.clone(),
            content_editable: self.editing,
            node_ref: None,
            children: self.text.clone(),
        }
    }

    /// Replaces the value; the shown text is recomputed only when the new
    /// value differs, which the result tells.
    pub fn set_value(&mut self, value: T) -> (recomputed: bool)
        requires
            old(self).wf(),
        ensures
            final(self).wf(),
            final(self)@ == (CellModel { value: value@, ..old(self)@ }),
            recomputed == (value@ != old(self)@.value),
    {
        if self.value.same_value(&value) {
            false
        } else {
            self.text = value.render_value(&self.options);
            self.value = value;
            true
        }
    }

    /// Replaces the render options; the shown text is recomputed only when
    /// the precision differs, which the result tells.
    pub fn set_options(&mut self, options: RenderOptions) -> (recomputed: bool)
        requires
            old(self).wf(),
        ensures
            final(self).wf(),
            final(self)@ == (CellModel { options, ..old(self)@ }),
            recomputed == (options.precision != old(self)@.options.precision),
    {
        let same = match (self.options.precision, options.precision) {
            (None, None) => true,
            (Some(a), Some(b)) => a == b,
            _ => false,
        };
        if same {
            assert(options == self.options);
            false
        } else {
            self.text = self.value.render_value(&options);
            self.options = options;
            true
        }
    }

    /// Takes one event; returns the value to hand to the change callback.
    pub fn handle(&mut self, event: CellEvent<T>) -> (r: Option<T>)
        requires
            old(self).wf(),
        ensures
            final(self).wf(),
            (final(self)@, option_view(r)) == step::<T>(old(self)@, event@),
    {
        match event {
            CellEvent::Focus => {
                self.editing = self.editable;
                None
            },
            CellEvent::Blur => {
                self.editing = false;
                None
            },
            CellEvent::Input(text) => {
                if self.editing {
                    match T::parse_value(text.as_str()) {
                        Ok(v) => Some(v),
                        Err(_) => None,
                    }
                } else {
                    None
                }
            },
            CellEvent::Replace(v) => {
                self.set_value(v);
                None
            },
            CellEvent::Reformat(o) => {
                self.set_options(o);
                None
            },
        }
    }
}

/// The default cell renderer: a cell in display state showing `value` under
/// `options`, to be edited in place when `editable` holds.
#[allow(non_snake_case)]
pub fn DefaultTableCellRenderer<T: CellValue>(
    class: String,
    value: T,
    index: usize,
    editable: bool,
    options: RenderOptions,
) -> (r: TableCell<T>)
    ensures
        r.wf(),
        r@ == (CellModel { class: class@, value: value@, index, editable, options, editing: false }),
{
    TableCell::new(class, value, index, editable, options)
}

} // verus!
