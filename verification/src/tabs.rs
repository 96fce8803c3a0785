//! Tab data model: identifiers, per-tab attributes with the merge rule
//! (an incoming field that is present replaces the stored one; an absent
//! incoming field keeps the stored value), and the tuple conversions used
//! on the bus surface.
use vstd::prelude::*;

verus! {

/// Opaque tab identifier reported by the extension.
pub type TabId = u32;

/// Opaque window identifier reported by the extension.
pub type WindowId = u32;

/// Per-tab attributes. Every field is independently optional: absence means
/// "unknown", not "empty".
pub struct TabAttributes {
    pub title: Option<String>,
    pub url: Option<String>,
    pub window_id: Option<WindowId>,
}

/// A tab identifier together with its attributes.
pub struct TabInfo {
    pub tab_id: TabId,
    pub attributes: TabAttributes,
}

/// One inbound message from the extension. The `action` string selects the
/// shape: `update` carries attributes, `remove` only a tab id, `sync` a
/// sequence number and an optional error text.
pub struct TabEvent {
    pub action: String,
    pub key: Option<String>,
    pub tab_info: TabInfo,
    pub sequence_number: Option<u64>,
    pub error: Option<String>,
}

/// Mathematical model of a `TabEvent`: the flattened fields, each string as
/// a character sequence.
pub struct EventModel {
    pub action: Seq<char>,
    pub key: Option<Seq<char>>,
    pub tab_id: TabId,
    pub title: Option<Seq<char>>,
    pub url: Option<Seq<char>>,
    pub window_id: Option<WindowId>,
    pub sequence_number: Option<u64>,
    pub error: Option<Seq<char>>,
}

impl View for TabEvent {
    type V = EventModel;

    open spec fn view(&self) -> EventModel {
        EventModel {
            action: self.action@,
            key: opt_string_view(self.key),
            tab_id: self.tab_info.tab_id,
            title: self.tab_info.attributes@.title,
            url: self.tab_info.attributes@.url,
            window_id: self.tab_info.attributes@.window_id,
            sequence_number: self.sequence_number,
            error: opt_string_view(self.error),
        }
    }
}

/// Mathematical model of a `TabAttributes` value: each field as an optional
/// sequence of characters or number.
pub struct AttrsModel {
    pub title: Option<Seq<char>>,
    pub url: Option<Seq<char>>,
    pub window_id: Option<WindowId>,
}

impl View for TabAttributes {
    type V = AttrsModel;

    open spec fn view(&self) -> AttrsModel {
        AttrsModel {
            title: match self.title {
                Some(ref t) => Some(t@),
                None => None,
            },
            url: match self.url {
                Some(ref u) => Some(u@),
                None => None,
            },
            window_id: self.window_id,
        }
    }
}

/// Model of an optional owned string: the character sequence, if present.
pub open spec fn opt_string_view(o: Option<String>) -> Option<Seq<char>> {
    match o {
        Some(s) => Some(s@),
        None => None,
    }
}

/// The merge rule on one optional field: a present incoming value wins,
/// an absent one keeps what was stored.
pub open spec fn merged_field<T>(incoming: Option<T>, stored: Option<T>) -> Option<T> {
    match incoming {
        Some(v) => Some(v),
        None => stored,
    }
}

/// The merge rule on whole attribute records, field by field.
pub open spec fn merged(incoming: AttrsModel, stored: AttrsModel) -> AttrsModel {
    AttrsModel {
        title: merged_field(incoming.title, stored.title),
        url: merged_field(incoming.url, stored.url),
        window_id: merged_field(incoming.window_id, stored.window_id),
    }
}

impl TabAttributes {
    /// Fill the unknown fields of `self` (the incoming record) from `other`
    /// (the stored record): a present incoming field is kept as it is, an
    /// absent one takes the stored value. An update can only add
    /// information, never erase it by omission.
    pub fn merge(&mut self, other: &TabAttributes)
        ensures
            final(self)@ == merged(old(self)@, other@),
    {
        if self.title.is_none() {
            self.title = match other.title {
                Some(ref t) => Some(t.clone()),
                None => None,
            };
        }
        if self.url.is_none() {
            self.url = match other.url {
                Some(ref u) => Some(u.clone()),
                None => None,
            };
        }
        if self.window_id.is_none() {
            self.window_id = other.window_id;
        }
        assert(self@ =~= merged(old(self)@, other@));
    }

    /// An exact copy of this attribute record.
    pub fn duplicate(&self) -> (r: TabAttributes)
        ensures
            r@ == self@,
    {
        let r = TabAttributes {
            title: match self.title {
                Some(ref t) => Some(t.clone()),
                None => None,
            },
            url: match self.url {
                Some(ref u) => Some(u.clone()),
                None => None,
            },
            window_id: self.window_id,
        };
        assert(r@ =~= self@);
        r
    }
}

/// The flat shape a tab takes on the bus: id, title, url, window id, with
/// absence encoded as the empty string or zero.
pub type DBusTabInfo = (TabId, String, String, WindowId);

/// A whole tab listing in bus shape.
pub type DBusTabInfoList = Vec<DBusTabInfo>;

/// Model of one bus tuple.
pub open spec fn tuple_model(t: DBusTabInfo) -> (TabId, Seq<char>, Seq<char>, WindowId) {
    (t.0, t.1@, t.2@, t.3)
}

/// How one (id, attributes) pair flattens onto the bus: unknown strings
/// become empty, an unknown window id becomes zero.
pub open spec fn flattened(id: TabId, a: AttrsModel) -> (TabId, Seq<char>, Seq<char>, WindowId) {
    (
        id,
        match a.title {
            Some(t) => t,
            None => Seq::<char>::empty(),
        },
        match a.url {
            Some(u) => u,
            None => Seq::<char>::empty(),
        },
        match a.window_id {
            Some(w) => w,
            None => 0,
        },
    )
}

/// Flatten one (id, attributes) pair to its bus tuple.
pub fn tab_to_tuple(v: &(TabId, &TabAttributes)) -> (r: DBusTabInfo)
    ensures
        tuple_model(r) == flattened(v.0, v.1@),
{
    let attributes = v.1;
    let title = match attributes.title {
        Some(ref t) => t.clone(),
        None => String::new(),
    };
    let url = match attributes.url {
        Some(ref u) => u.clone(),
        None => String::new(),
    };
    let window_id = match attributes.window_id {
        Some(w) => w,
        None => 0,
    };
    let r = (v.0, title, url, window_id);
    assert(tuple_model(r) =~= flattened(v.0, v.1@));
    r
}

/// Flatten a whole listing to bus tuples, keeping the order.
pub fn unpack_tabs(values: &[(TabId, &TabAttributes)]) -> (r: DBusTabInfoList)
    ensures
        r@.len() == values@.len(),
        forall|i: int|
            0 <= i < values@.len() ==> tuple_model(r@[i]) == flattened(
                values@[i].0,
                values@[i].1@,
            ),
{
    let mut r: DBusTabInfoList = Vec::new();
    let mut i: usize = 0;
    while i < values.len()
        invariant
            0 <= i <= values@.len(),
            r@.len() == i,
            forall|j: int|
                0 <= j < i ==> tuple_model(r@[j]) == flattened(values@[j].0, values@[j].1@),
        decreases values@.len() - i,
    {
        let t = tab_to_tuple(&values[i]);
        r.push(t);
        i = i + 1;
    }
    r
}

/// How a bus tuple is read back: an empty string or a zero window id stands
/// for "unknown".
pub open spec fn unflattened(t: (TabId, Seq<char>, Seq<char>, WindowId)) -> (TabId, AttrsModel) {
    (
        t.0,
        AttrsModel {
            title: if t.1.len() == 0 {
                None
            } else {
                Some(t.1)
            },
            url: if t.2.len() == 0 {
                None
            } else {
                Some(t.2)
            },
            window_id: if t.3 == 0 {
                None
            } else {
                Some(t.3)
            },
        },
    )
}

/// Read one bus tuple back into a `TabInfo`.
pub fn tuple_to_tab(source: &DBusTabInfo) -> (r: TabInfo)
    ensures
        (r.tab_id, r.attributes@) == unflattened(tuple_model(*source)),
{
    let tab_id = source.0;
    let title = get_option_string(source.1.as_str());
    let url = get_option_string(source.2.as_str());
    let window_id = get_option_u32(&source.3);
    let r = TabInfo { tab_id, attributes: TabAttributes { title, url, window_id } };
    assert(r.attributes@ =~= unflattened(tuple_model(*source)).1);
    r
}

/// An empty string reads back as "unknown".
fn get_option_string(source: &str) -> (r: Option<String>)
    ensures
        match r {
            Some(v) => v@ == source@ && source@.len() != 0,
            None => source@.len() == 0,
        },
{
    if source.unicode_len() == 0 {
        None
    } else {
        Some(source.to_owned())
    }
}

/// A zero reads back as "unknown".
fn get_option_u32(source: &u32) -> (r: Option<u32>)
    ensures
        r == (if *source == 0 {
            Option::<u32>::None
        } else {
            Option::<u32>::Some(*source)
        }),
{
    if *source == 0 {
        None
    } else {
        Some(*source)
    }
}

/// Replace an absent string with the empty one.
pub fn none_to_empty(value: Option<&str>) -> (r: &str)
    ensures
        match value {
            Some(v) => r@ == v@,
            None => r@.len() == 0,
        },
{
    if let Some(value) = value {
        value
    } else {
        let empty = "";
        proof {
            reveal_strlit("");
        }
        empty
    }
}

/// Replace an absent owned string with the empty one.
pub fn none_to_empty_string(value: Option<String>) -> (r: String)
    ensures
        match value {
            Some(v) => r@ == v@,
            None => r@.len() == 0,
        },
{
    match value {
        Some(v) => v,
        None => String::new(),
    }
}

/// Replace an empty string with "absent".
pub fn empty_to_none(value: String) -> (r: Option<String>)
    ensures
        match r {
            Some(v) => v@ == value@ && value@.len() != 0,
            None => value@.len() == 0,
        },
{
    if value.as_str().unicode_len() == 0 {
        None
    } else {
        Some(value)
    }
}

} // verus!
