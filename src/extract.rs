//! The extraction engine over a stream of structural XML events: the stack of
//! open elements, the attribute lookup, and the fold over a whole stream.

use vstd::prelude::*;
use crate::path::{at_path, is_match, split_path, split_commas, views};

verus! {

/// One attribute of an element, decoded to text.
pub struct Attribute {
    pub key: String,
    pub value: String,
}

/// One structural event of a document, names and values decoded to text.
pub enum XmlEvent {
    /// A start tag `<name ...>`.
    Open(String),
    /// An end tag; which name it closes does not matter here.
    Close,
    /// A self-closing tag `<name .../>` with its attributes in document order.
    Empty(String, Vec<Attribute>),
    /// The end of the document.
    End,
    /// Text, comments, declarations and the like.
    Other,
}

/// What an event is, as plain text values.
pub enum EventView {
    Open(Seq<char>),
    Close,
    Empty(Seq<char>, Seq<(Seq<char>, Seq<char>)>),
    End,
    Other,
}

pub open spec fn attr_views(attrs: Seq<Attribute>) -> Seq<(Seq<char>, Seq<char>)> {
    attrs.map_values(|a: Attribute| (a.key@, a.value@))
}

impl View for XmlEvent {
    type V = EventView;

    open spec fn view(&self) -> EventView {
        match self {
            XmlEvent::Open(n) => EventView::Open(n@),
            XmlEvent::Close => EventView::Close,
            XmlEvent::Empty(n, attrs) => EventView::Empty(n@, attr_views(attrs@)),
            XmlEvent::End => EventView::End,
            XmlEvent::Other => EventView::Other,
        }
    }
}

/// Which elements to look at and which of their attributes to take.
pub struct ParserRule {
    /// Tag names from the root down to the element itself.
    pub path: Vec<String>,
    /// The attribute whose value is wanted.
    pub property: String,
}

/// The state of a scan: the names of the open elements (outermost first),
/// the values found so far, and whether the end of the document was seen.
pub struct ScanView {
    pub stack: Seq<Seq<char>>,
    pub found: Seq<Seq<char>>,
    pub done: bool,
}

/// The values of the attributes keyed `key`, in their order.
pub open spec fn wanted_values(attrs: Seq<(Seq<char>, Seq<char>)>, key: Seq<char>) -> Seq<Seq<char>>
    decreases attrs.len(),
{
    if attrs.len() == 0 {
        Seq::empty()
    } else if attrs.last().0 == key {
        wanted_values(attrs.drop_last(), key).push(attrs.last().1)
    } else {
        wanted_values(attrs.drop_last(), key)
    }
}

pub open spec fn initial_scan() -> ScanView {
    ScanView { stack: Seq::empty(), found: Seq::empty(), done: false }
}

/// One event applied to a scan: a start tag opens, an end tag closes the
/// innermost open element (if any), a self-closing tag at `path` adds the
/// values of its `key` attributes, the end of the document stops the scan.
pub open spec fn apply_event(
    s: ScanView,
    e: EventView,
    path: Seq<Seq<char>>,
    key: Seq<char>,
) -> ScanView {
    if s.done {
        s
    } else {
        match e {
            EventView::Open(n) => ScanView { stack: s.stack.push(n), ..s },
            EventView::Close => if s.stack.len() > 0 {
                ScanView { stack: s.stack.drop_last(), ..s }
            } else {
                s
            },
            EventView::Empty(n, attrs) => if at_path(s.stack, n, path) {
                ScanView { found: s.found + wanted_values(attrs, key), ..s }
            } else {
                s
            },
            EventView::End => ScanView { done: true, ..s },
            EventView::Other => s,
        }
    }
}

/// The scan after all of `events`, from the start of a document.
pub open spec fn run_events(events: Seq<EventView>, path: Seq<Seq<char>>, key: Seq<char>) -> ScanView
    decreases events.len(),
{
    if events.len() == 0 {
        initial_scan()
    } else {
        apply_event(run_events(events.drop_last(), path, key), events.last(), path, key)
    }
}

/// `t`'s values begin with all of `s`'s values, in the same order.
pub open spec fn found_extends(s: ScanView, t: ScanView) -> bool {
    s.found.len() <= t.found.len() && t.found.subrange(0, s.found.len() as int) == s.found
}

/// A self-closing element adds the values of its wanted attribute, in their
/// order and after everything found before, exactly when its ancestors and
/// its own name spell the path; otherwise it adds nothing. The open elements
/// stay as they were.
pub proof fn lemma_self_closing_element(
    s: ScanView,
    name: Seq<char>,
    attrs: Seq<(Seq<char>, Seq<char>)>,
    path: Seq<Seq<char>>,
    key: Seq<char>,
)
    requires
        !s.done,
    ensures
        apply_event(s, EventView::Empty(name, attrs), path, key).stack == s.stack,
        apply_event(s, EventView::Empty(name, attrs), path, key).found == if s.stack.push(name)
            == path {
            s.found + wanted_values(attrs, key)
        } else {
            s.found
        },
{
}

/// Values are only ever added at the end: what a stream gives is the start of
/// what the same stream gives with more events after it, so the values come
/// out in document order, none dropped or moved.
pub proof fn lemma_values_in_document_order(
    a: Seq<EventView>,
    b: Seq<EventView>,
    path: Seq<Seq<char>>,
    key: Seq<char>,
)
    ensures
        found_extends(run_events(a, path, key), run_events(a + b, path, key)),
    decreases b.len(),
{
    if b.len() == 0 {
        assert(a + b =~= a);
        let f = run_events(a, path, key).found;
        assert(f.subrange(0, f.len() as int) =~= f);
    } else {
        lemma_values_in_document_order(a, b.drop_last(), path, key);
        assert((a + b).drop_last() =~= a + b.drop_last());
        assert((a + b).last() == b.last());
        let s0 = run_events(a, path, key);
        let s1 = run_events(a + b.drop_last(), path, key);
        let s2 = run_events(a + b, path, key);
        assert(s2 == apply_event(s1, b.last(), path, key));
        assert(found_extends(s1, s2)) by {
            if !s1.done {
                if let EventView::Empty(n, attrs) = b.last() {
                    if at_path(s1.stack, n, path) {
                        assert(s2.found.subrange(0, s1.found.len() as int) =~= s1.found);
                    }
                }
            }
            assert(s1.found.subrange(0, s1.found.len() as int) =~= s1.found);
        }
        assert(s2.found.subrange(0, s0.found.len() as int) =~= s1.found.subrange(
            0,
            s0.found.len() as int,
        ));
    }
}

/// A start tag followed at once by its end tag leaves the scan as it was:
/// unlike the self-closing form of the same element, it is never looked at.
pub proof fn lemma_open_then_close(s: ScanView, name: Seq<char>, path: Seq<Seq<char>>, key: Seq<char>)
    requires
        !s.done,
    ensures
        apply_event(apply_event(s, EventView::Open(name), path, key), EventView::Close, path, key)
            == s,
{
    assert(s.stack.push(name).drop_last() =~= s.stack);
}

/// An element whose depth is not the length of the path does not match it,
/// whatever the names: neither above the path's last element nor below it.
pub proof fn lemma_no_partial_match(stack: Seq<Seq<char>>, name: Seq<char>, path: Seq<Seq<char>>)
    requires
        stack.len() + 1 != path.len(),
    ensures
        !at_path(stack, name, path),
{
    if at_path(stack, name, path) {
        assert(stack.push(name).len() == path.len());
    }
}

/// An element without the wanted attribute gives no value, and no error.
pub proof fn lemma_missing_attribute(attrs: Seq<(Seq<char>, Seq<char>)>, key: Seq<char>)
    requires
        forall|i: int| 0 <= i < attrs.len() ==> attrs[i].0 != key,
    ensures
        wanted_values(attrs, key) == Seq::<Seq<char>>::empty(),
    decreases attrs.len(),
{
    if attrs.len() > 0 {
        lemma_missing_attribute(attrs.drop_last(), key);
    }
}

pub open spec fn event_views(events: Seq<XmlEvent>) -> Seq<EventView> {
    events.map_values(|e: XmlEvent| e@)
}

impl ParserRule {
    /// A rule from a comma-separated tag path (split as it is, nothing
    /// trimmed) and an attribute name.
    pub fn new(path: &str, property: &str) -> (r: ParserRule)
        ensures
            views(r.path@) == split_commas(path@),
            r.property@ == property@,
    {
        ParserRule { path: split_path(path), property: property.to_owned() }
    }
}

/// The values of the attributes of `attrs` whose key is `key`, in order;
/// empty where there is none.
pub fn attribute_values(attrs: &Vec<Attribute>, key: &String) -> (r: Vec<String>)
    ensures
        views(r@) == wanted_values(attr_views(attrs@), key@),
{
    let mut r: Vec<String> = Vec::new();
    let mut i: usize = 0;
    while i < attrs.len()
        invariant
            i <= attrs@.len(),
            views(r@) == wanted_values(attr_views(attrs@.subrange(0, i as int)), key@),
        decreases attrs@.len() - i,
    {
        let ghost before = attrs@.subrange(0, i as int);
        let ghost after = attrs@.subrange(0, i + 1);
        assert(attr_views(after).drop_last() =~= attr_views(before));
        assert(attr_views(after).last() == (attrs@[i as int].key@, attrs@[i as int].value@));
        if attrs[i].key == *key {
            r.push(attrs[i].value.clone());
            assert(views(r@) =~= views(r@.drop_last()).push(attrs@[i as int].value@));
        }
        i = i + 1;
    }
    assert(attrs@.subrange(0, attrs@.len() as int) =~= attrs@);
    r
}

/// A scan in progress: the open elements and the values found so far.
pub struct Scan {
    stack: Vec<String>,
    found: Vec<String>,
    done: bool,
}

impl View for Scan {
    type V = ScanView;

    closed spec fn view(&self) -> ScanView {
        ScanView { stack: views(self.stack@), found: views(self.found@), done: self.done }
    }
}

impl Scan {
    /// The scan at the start of a document.
    pub fn new() -> (r: Scan)
        ensures
            r@ == initial_scan(),
    {
        let r = Scan { stack: Vec::new(), found: Vec::new(), done: false };
        assert(r@.stack =~= Seq::<Seq<char>>::empty());
        assert(r@.found =~= Seq::<Seq<char>>::empty());
        r
    }

    /// Whether the end of the document was seen.
    pub fn is_done(&self) -> (r: bool)
        ensures
            r == self@.done,
    {
        self.done
    }

    /// The values found so far, in document order.
    pub fn into_found(self) -> (r: Vec<String>)
        ensures
            views(r@) == self@.found,
    {
        self.found
    }

    /// Applies one event under `rule`.
    pub fn apply(&mut self, e: &XmlEvent, rule: &ParserRule)
        ensures
            final(self)@ == apply_event(old(self)@, e@, views(rule.path@), rule.property@),
    {
        if self.done {
            return;
        }
        match e {
            XmlEvent::Open(n) => {
                self.stack.push(n.clone());
                assert(views(self.stack@) =~= views(old(self).stack@).push(n@));
            },
            XmlEvent::Close => {
                if self.stack.len() > 0 {
                    self.stack.pop();
                    assert(views(self.stack@) =~= views(old(self).stack@).drop_last());
                }
            },
            XmlEvent::Empty(n, attrs) => {
                if is_match(&self.stack, n, &rule.path) {
                    let mut vals = attribute_values(attrs, &rule.property);
                    let ghost vs = vals@;
                    self.found.append(&mut vals);
                    assert(views(self.found@) =~= views(old(self).found@) + views(vs));
                }
            },
            XmlEvent::End => {
                self.done = true;
            },
            XmlEvent::Other => {},
        }
        assert(self@ == apply_event(old(self)@, e@, views(rule.path@), rule.property@));
    }
}

/// The values that `rule` picks from `events`, in document order; events after
/// the first end of the document are not looked at.
pub fn extract_from_events(events: &Vec<XmlEvent>, rule: &ParserRule) -> (r: Vec<String>)
    ensures
        views(r@) == run_events(event_views(events@), views(rule.path@), rule.property@).found,
{
    let mut scan = Scan::new();
    let mut i: usize = 0;
    while i < events.len()
        invariant
            i <= events@.len(),
            scan@ == run_events(
                event_views(events@.subrange(0, i as int)),
                views(rule.path@),
                rule.property@,
            ),
        decreases events@.len() - i,
    {
        assert(event_views(events@.subrange(0, i + 1)).drop_last() =~= event_views(
            events@.subrange(0, i as int),
        ));
        scan.apply(&events[i], rule);
        i = i + 1;
    }
    assert(events@.subrange(0, events@.len() as int) =~= events@);
    scan.into_found()
}

} // verus!
