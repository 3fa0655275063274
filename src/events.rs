use vstd::prelude::*;

use crate::json::{entries_model, lemma_object_model, JsonModel};
use crate::value::HostValue;

verus! {

/// How important an event is.
#[derive(Clone, Copy, Debug, PartialEq, Eq, Structural)]
pub enum EventLevel {
    Trace,
    Debug,
    Info,
    Warn,
    Error,
}

/// A structured event: where it comes from, its level and its fields.
#[derive(Debug, PartialEq)]
pub struct Event {
    pub target: String,
    pub level: EventLevel,
    pub fields: Vec<(String, String)>,
}

/// An append-only buffer of events, drained by its reader.
#[derive(Debug)]
pub struct VecEventBuffer {
    events: Vec<Event>,
}

impl VecEventBuffer {
    /// The events in the buffer, oldest first.
    pub closed spec fn view(&self) -> Seq<Event> {
        self.events@
    }

    /// An empty buffer.
    pub fn new() -> (r: VecEventBuffer)
        ensures
            r.view() == Seq::<Event>::empty(),
    {
        VecEventBuffer { events: Vec::new() }
    }

    /// Adds an event after all others.
    pub fn append(&mut self, event: Event)
        ensures
            final(self).view() == old(self).view().push(event),
    {
        self.events.push(event);
    }

    /// The events, oldest first, without taking them out.
    pub fn events(&self) -> (r: &Vec<Event>)
        ensures
            r@ == self.view(),
    {
        &self.events
    }

    /// The number of events.
    pub fn len(&self) -> (r: usize)
        ensures
            r == self.view().len(),
    {
        self.events.len()
    }

    /// Takes all events out, oldest first, leaving the buffer empty.
    pub fn drain(&mut self) -> (r: Vec<Event>)
        ensures
            r@ == old(self).view(),
            final(self).view() == Seq::<Event>::empty(),
    {
        let mut taken: Vec<Event> = Vec::new();
        std::mem::swap(&mut taken, &mut self.events);
        taken
    }
}


/// An event's fields as object entries of strings.
pub open spec fn fields_model(f: Seq<(String, String)>) -> Seq<(Seq<char>, JsonModel)> {
    Seq::new(f.len(), |i: int| (f[i].0@, JsonModel::Str(f[i].1@)))
}

/// `{"kind": "metrics-send", "target": t, "fields": {..}}`.
pub open spec fn metrics_model(target: Seq<char>, f: Seq<(String, String)>) -> JsonModel {
    JsonModel::Object(
        Seq::empty().push(("kind"@, JsonModel::Str("metrics-send"@))).push(
            ("target"@, JsonModel::Str(target)),
        ).push(("fields"@, JsonModel::Object(fields_model(f)))),
    )
}

/// The message that forwards an event to the host.
pub fn metrics_message(event: Event) -> (r: HostValue)
    ensures
        r.model() == metrics_model(event.target@, event.fields@),
{
    let ghost t = event.target@;
    let ghost f = event.fields@;
    let fields = event.fields;
    let mut out: Vec<(String, HostValue)> = Vec::new();
    let mut i: usize = 0;
    while i < fields.len()
        invariant
            fields@ == f,
            i <= fields@.len(),
            entries_model(out@) == fields_model(f).take(i as int),
        decreases fields@.len() - i,
    {
        let k = fields[i].0.clone();
        let v = fields[i].1.clone();
        let ghost before = entries_model(out@);
        out.push((k, HostValue::String(v)));
        assert(entries_model(out@) =~= before.push((f[i as int].0@, JsonModel::Str(f[i as int].1@))));
        assert(fields_model(f).take(i + 1) =~= fields_model(f).take(i as int).push(
            (f[i as int].0@, JsonModel::Str(f[i as int].1@)),
        ));
        i = i + 1;
    }
    assert(fields_model(f).take(i as int) =~= fields_model(f));
    proof {
        lemma_object_model(out);
    }
    let fv = HostValue::Object(out);
    let ghost fm = fv.model();
    let mut e: Vec<(String, HostValue)> = Vec::new();
    e.push((String::from_str("kind"), HostValue::String(String::from_str("metrics-send"))));
    e.push((String::from_str("target"), HostValue::String(event.target)));
    e.push((String::from_str("fields"), fv));
    proof {
        lemma_object_model(e);
        assert(entries_model(e@) =~= Seq::empty().push(("kind"@, JsonModel::Str("metrics-send"@))).push(
            ("target"@, JsonModel::Str(t)),
        ).push(("fields"@, fm)));
    }
    HostValue::Object(e)
}

} // verus!
