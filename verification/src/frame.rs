//! The decoded inbound frames: from parsed members to the typed frame each
//! tag selects.
//!
//! The tag is read first; a schema is extracted only when the notification
//! flags leave its dispatch row active, so a filtered-out or unknown frame
//! is never rejected for the shape of a payload nobody reads.

use vstd::prelude::*;
use crate::errors::Error;
use crate::types::NotificationFlags;
use crate::json::{
    JsonCell, JsonValue, SpCell, SpVal, members_view, rows_view, cells_view, cell_view, val_view,
    sp_frame_members, parse_frame_members,
};

verus! {

/// A decoded inbound frame, one variant per known tag; `Other` stands for
/// every unknown tag and is ignored downstream.
#[derive(Clone, PartialEq, Eq, Debug)]
pub enum Frame {
    SubscribeAck,
    Snapshot { bids: Vec<(String, String)>, asks: Vec<(String, String)> },
    L2Update { changes: Vec<(String, String, String)> },
    Match {
        time: String,
        size: String,
        price: String,
        side: String,
        maker_order_id: String,
        taker_order_id: String,
        profile_id: Option<String>,
    },
    Received {
        time: String,
        client_oid: Option<String>,
        order_id: String,
        size: String,
        price: String,
        side: String,
    },
    Done { reason: String, order_id: String, time: String },
    ErrorFrame { message: String },
    Other,
}

/// Spec model of a decoded frame.
pub enum SpFrame {
    SubscribeAck,
    Snapshot { bids: Seq<(Seq<char>, Seq<char>)>, asks: Seq<(Seq<char>, Seq<char>)> },
    L2Update { changes: Seq<(Seq<char>, Seq<char>, Seq<char>)> },
    Match {
        time: Seq<char>,
        size: Seq<char>,
        price: Seq<char>,
        side: Seq<char>,
        maker_order_id: Seq<char>,
        taker_order_id: Seq<char>,
        profile_id: Option<Seq<char>>,
    },
    Received {
        time: Seq<char>,
        client_oid: Option<Seq<char>>,
        order_id: Seq<char>,
        size: Seq<char>,
        price: Seq<char>,
        side: Seq<char>,
    },
    Done { reason: Seq<char>, order_id: Seq<char>, time: Seq<char> },
    ErrorFrame { message: Seq<char> },
    Other,
}

pub open spec fn opt_view(o: Option<String>) -> Option<Seq<char>> {
    match o {
        Some(t) => Some(t@),
        None => None,
    }
}

pub open spec fn pairs_view(v: Seq<(String, String)>) -> Seq<(Seq<char>, Seq<char>)> {
    v.map_values(|p: (String, String)| (p.0@, p.1@))
}

pub open spec fn triples_view(v: Seq<(String, String, String)>) -> Seq<
    (Seq<char>, Seq<char>, Seq<char>),
> {
    v.map_values(|p: (String, String, String)| (p.0@, p.1@, p.2@))
}

pub open spec fn frame_view(f: Frame) -> SpFrame {
    match f {
        Frame::SubscribeAck => SpFrame::SubscribeAck,
        Frame::Snapshot { bids, asks } => SpFrame::Snapshot {
            bids: pairs_view(bids@),
            asks: pairs_view(asks@),
        },
        Frame::L2Update { changes } => SpFrame::L2Update { changes: triples_view(changes@) },
        Frame::Match { time, size, price, side, maker_order_id, taker_order_id, profile_id } =>
            SpFrame::Match {
            time: time@,
            size: size@,
            price: price@,
            side: side@,
            maker_order_id: maker_order_id@,
            taker_order_id: taker_order_id@,
            profile_id: opt_view(profile_id),
        },
        Frame::Received { time, client_oid, order_id, size, price, side } => SpFrame::Received {
            time: time@,
            client_oid: opt_view(client_oid),
            order_id: order_id@,
            size: size@,
            price: price@,
            side: side@,
        },
        Frame::Done { reason, order_id, time } => SpFrame::Done {
            reason: reason@,
            order_id: order_id@,
            time: time@,
        },
        Frame::ErrorFrame { message } => SpFrame::ErrorFrame { message: message@ },
        Frame::Other => SpFrame::Other,
    }
}

/// The value of the first member named `key`, looking from position `i`.
pub open spec fn sp_find(ms: Seq<(Seq<char>, SpVal)>, key: Seq<char>, i: int) -> Option<SpVal>
    decreases ms.len() - i when 0 <= i <= ms.len()
{
    if i >= ms.len() {
        None
    } else if ms[i].0 == key {
        Some(ms[i].1)
    } else {
        sp_find(ms, key, i + 1)
    }
}

/// A member that must hold a string.
pub open spec fn sp_str_field(ms: Seq<(Seq<char>, SpVal)>, key: Seq<char>) -> Option<Seq<char>> {
    match sp_find(ms, key, 0) {
        Some(SpVal::Cell(SpCell::Text(t))) => Some(t),
        _ => None,
    }
}

/// A member that may be absent but must hold a string when present: the
/// outer `None` is a schema mismatch, `Some(None)` is absence.
pub open spec fn sp_opt_str_field(ms: Seq<(Seq<char>, SpVal)>, key: Seq<char>) -> Option<
    Option<Seq<char>>,
> {
    match sp_find(ms, key, 0) {
        Some(SpVal::Cell(SpCell::Text(t))) => Some(Some(t)),
        Some(_) => None,
        None => Some(None),
    }
}

/// Rows of exactly two strings, read from position `i` on.
pub open spec fn sp_pairs(
    rows: Seq<Seq<SpCell>>,
    i: int,
    acc: Seq<(Seq<char>, Seq<char>)>,
) -> Option<Seq<(Seq<char>, Seq<char>)>>
    decreases rows.len() - i when 0 <= i <= rows.len()
{
    if i >= rows.len() {
        Some(acc)
    } else {
        let row = rows[i];
        if row.len() == 2 && row[0] is Text && row[1] is Text {
            sp_pairs(rows, i + 1, acc.push((row[0]->Text_0, row[1]->Text_0)))
        } else {
            None
        }
    }
}

/// Rows of exactly three strings, read from position `i` on.
pub open spec fn sp_triples(
    rows: Seq<Seq<SpCell>>,
    i: int,
    acc: Seq<(Seq<char>, Seq<char>, Seq<char>)>,
) -> Option<Seq<(Seq<char>, Seq<char>, Seq<char>)>>
    decreases rows.len() - i when 0 <= i <= rows.len()
{
    if i >= rows.len() {
        Some(acc)
    } else {
        let row = rows[i];
        if row.len() == 3 && row[0] is Text && row[1] is Text && row[2] is Text {
            sp_triples(rows, i + 1, acc.push((row[0]->Text_0, row[1]->Text_0, row[2]->Text_0)))
        } else {
            None
        }
    }
}

/// A member that must hold an array of rows of exactly two strings.
pub open spec fn sp_pairs_field(ms: Seq<(Seq<char>, SpVal)>, key: Seq<char>) -> Option<
    Seq<(Seq<char>, Seq<char>)>,
> {
    match sp_find(ms, key, 0) {
        Some(SpVal::Arr(rows)) => sp_pairs(rows, 0, Seq::empty()),
        _ => None,
    }
}

/// A member that must hold an array of rows of exactly three strings.
pub open spec fn sp_triples_field(ms: Seq<(Seq<char>, SpVal)>, key: Seq<char>) -> Option<
    Seq<(Seq<char>, Seq<char>, Seq<char>)>,
> {
    match sp_find(ms, key, 0) {
        Some(SpVal::Arr(rows)) => sp_triples(rows, 0, Seq::empty()),
        _ => None,
    }
}

/// The frame the members of an object denote: the `type` member selects
/// the schema, unknown tags map to `Other`, and a tag whose dispatch row
/// the flags gate off maps to `Other` without its payload being read. A
/// missing or ill-typed field of an active schema makes the whole frame
/// undecodable; an error frame is decoded whatever its shape, its message
/// empty when the frame names none.
pub open spec fn sp_frame_of(ms: Seq<(Seq<char>, SpVal)>, flags: NotificationFlags) -> Option<
    SpFrame,
> {
    match sp_str_field(ms, "type"@) {
        None => None,
        Some(tag) => {
            if tag == "subscribe"@ {
                Some(SpFrame::SubscribeAck)
            } else if tag == "snapshot"@ {
                if !flags.order_book {
                    Some(SpFrame::Other)
                } else {
                    match (sp_pairs_field(ms, "bids"@), sp_pairs_field(ms, "asks"@)) {
                        (Some(bids), Some(asks)) => Some(SpFrame::Snapshot { bids, asks }),
                        _ => None,
                    }
                }
            } else if tag == "l2update"@ {
                if !flags.order_book {
                    Some(SpFrame::Other)
                } else {
                    match sp_triples_field(ms, "changes"@) {
                        Some(changes) => Some(SpFrame::L2Update { changes }),
                        None => None,
                    }
                }
            } else if tag == "match"@ {
                if !flags.trades && !flags.orders {
                    Some(SpFrame::Other)
                } else {
                match (sp_str_field(ms, "time"@), sp_str_field(ms, "size"@), sp_str_field(
                    ms,
                    "price"@,
                ), sp_str_field(ms, "side"@), sp_str_field(ms, "maker_order_id"@), sp_str_field(
                    ms,
                    "taker_order_id"@,
                ), sp_opt_str_field(ms, "profile_id"@)) {
                    (
                        Some(time),
                        Some(size),
                        Some(price),
                        Some(side),
                        Some(maker_order_id),
                        Some(taker_order_id),
                        Some(profile_id),
                    ) => Some(
                        SpFrame::Match {
                            time,
                            size,
                            price,
                            side,
                            maker_order_id,
                            taker_order_id,
                            profile_id,
                        },
                    ),
                    _ => None,
                }
                }
            } else if tag == "received"@ {
                if !flags.orders {
                    Some(SpFrame::Other)
                } else {
                match (sp_str_field(ms, "time"@), sp_opt_str_field(ms, "client_oid"@),
                sp_str_field(ms, "order_id"@), sp_str_field(ms, "size"@), sp_str_field(
                    ms,
                    "price"@,
                ), sp_str_field(ms, "side"@)) {
                    (
                        Some(time),
                        Some(client_oid),
                        Some(order_id),
                        Some(size),
                        Some(price),
                        Some(side),
                    ) => Some(SpFrame::Received { time, client_oid, order_id, size, price, side }),
                    _ => None,
                }
                }
            } else if tag == "done"@ {
                if !flags.orders {
                    Some(SpFrame::Other)
                } else {
                match (sp_str_field(ms, "reason"@), sp_str_field(ms, "order_id"@), sp_str_field(
                    ms,
                    "time"@,
                )) {
                    (Some(reason), Some(order_id), Some(time)) => Some(
                        SpFrame::Done { reason, order_id, time },
                    ),
                    _ => None,
                }
                }
            } else if tag == "error"@ {
                match sp_str_field(ms, "message"@) {
                    Some(message) => Some(SpFrame::ErrorFrame { message }),
                    None => Some(SpFrame::ErrorFrame { message: Seq::<char>::empty() }),
                }
            } else {
                Some(SpFrame::Other)
            }
        },
    }
}

/// What a whole frame text decodes to under the given flags, or `None`
/// when it cannot be decoded.
pub open spec fn sp_decode_frame(s: Seq<char>, flags: NotificationFlags) -> Option<SpFrame> {
    match sp_frame_members(s) {
        Some(ms) => sp_frame_of(ms, flags),
        None => None,
    }
}

/// Character-wise string equality.
pub fn str_eq(a: &str, b: &str) -> (r: bool)
    ensures
        r == (a@ == b@),
{
    let na = a.unicode_len();
    let nb = b.unicode_len();
    if na != nb {
        return false;
    }
    let mut i: usize = 0;
    while i < na
        invariant
            i <= na,
            na == a@.len(),
            na == b@.len(),
            forall|w: int| 0 <= w < i ==> a@[w] == b@[w],
        decreases na - i,
    {
        if a.get_char(i) != b.get_char(i) {
            return false;
        }
        i = i + 1;
    }
    proof {
        assert(a@ =~= b@);
    }
    true
}

fn find_value(ms: &Vec<(String, JsonValue)>, key: &str, i: usize) -> (r: Option<usize>)
    requires
        i <= ms@.len(),
    ensures
        match (r, sp_find(members_view(ms@), key@, i as int)) {
            (Some(ix), Some(v)) => i <= ix < ms@.len() && val_view(ms@[ix as int].1) == v
                && ms@[ix as int].0@ == key@,
            (None, None) => true,
            _ => false,
        },
    decreases ms@.len() - i,
{
    if i >= ms.len() {
        return None;
    }
    proof {
        assert(members_view(ms@)[i as int] == (ms@[i as int].0@, val_view(ms@[i as int].1)));
    }
    if str_eq(ms[i].0.as_str(), key) {
        Some(i)
    } else {
        find_value(ms, key, i + 1)
    }
}

fn get_str_field(ms: &Vec<(String, JsonValue)>, key: &str) -> (r: Option<String>)
    ensures
        match (r, sp_str_field(members_view(ms@), key@)) {
            (Some(t), Some(st)) => t@ == st,
            (None, None) => true,
            _ => false,
        },
{
    match find_value(ms, key, 0) {
        Some(ix) => match &ms[ix].1 {
            JsonValue::Cell(JsonCell::Text(t)) => Some(t.clone()),
            _ => None,
        },
        None => None,
    }
}

fn get_opt_str_field(ms: &Vec<(String, JsonValue)>, key: &str) -> (r: Option<Option<String>>)
    ensures
        match (r, sp_opt_str_field(members_view(ms@), key@)) {
            (Some(o), Some(so)) => opt_view(o) == so,
            (None, None) => true,
            _ => false,
        },
{
    match find_value(ms, key, 0) {
        Some(ix) => match &ms[ix].1 {
            JsonValue::Cell(JsonCell::Text(t)) => Some(Some(t.clone())),
            _ => None,
        },
        None => Some(None),
    }
}

fn pairs_of(rows: &Vec<Vec<JsonCell>>, i: usize, acc: Vec<(String, String)>) -> (r: Option<
    Vec<(String, String)>,
>)
    requires
        i <= rows@.len(),
    ensures
        match (r, sp_pairs(rows_view(rows@), i as int, pairs_view(acc@))) {
            (Some(v), Some(sv)) => pairs_view(v@) == sv,
            (None, None) => true,
            _ => false,
        },
    decreases rows@.len() - i,
{
    if i >= rows.len() {
        return Some(acc);
    }
    proof {
        assert(rows_view(rows@)[i as int] == cells_view(rows@[i as int]@));
    }
    let row = &rows[i];
    if row.len() == 2 {
        let c0 = &row[0];
        let c1 = &row[1];
        proof {
            assert(cells_view(row@)[0] == cell_view(row@[0]));
            assert(cells_view(row@)[1] == cell_view(row@[1]));
        }
        match (c0, c1) {
            (JsonCell::Text(a), JsonCell::Text(b)) => {
                let mut acc2 = acc;
                let pair = (a.clone(), b.clone());
                proof {
                    assert(pairs_view(acc2@.push(pair)) =~= pairs_view(acc2@).push(
                        (pair.0@, pair.1@),
                    ));
                }
                acc2.push(pair);
                pairs_of(rows, i + 1, acc2)
            },
            _ => None,
        }
    } else {
        None
    }
}

fn triples_of(rows: &Vec<Vec<JsonCell>>, i: usize, acc: Vec<(String, String, String)>) -> (r:
    Option<Vec<(String, String, String)>>)
    requires
        i <= rows@.len(),
    ensures
        match (r, sp_triples(rows_view(rows@), i as int, triples_view(acc@))) {
            (Some(v), Some(sv)) => triples_view(v@) == sv,
            (None, None) => true,
            _ => false,
        },
    decreases rows@.len() - i,
{
    if i >= rows.len() {
        return Some(acc);
    }
    proof {
        assert(rows_view(rows@)[i as int] == cells_view(rows@[i as int]@));
    }
    let row = &rows[i];
    if row.len() == 3 {
        proof {
            assert(cells_view(row@)[0] == cell_view(row@[0]));
            assert(cells_view(row@)[1] == cell_view(row@[1]));
            assert(cells_view(row@)[2] == cell_view(row@[2]));
        }
        match (&row[0], &row[1], &row[2]) {
            (JsonCell::Text(a), JsonCell::Text(b), JsonCell::Text(c)) => {
                let mut acc2 = acc;
                let triple = (a.clone(), b.clone(), c.clone());
                proof {
                    assert(triples_view(acc2@.push(triple)) =~= triples_view(acc2@).push(
                        (triple.0@, triple.1@, triple.2@),
                    ));
                }
                acc2.push(triple);
                triples_of(rows, i + 1, acc2)
            },
            _ => None,
        }
    } else {
        None
    }
}

fn get_pairs_field(ms: &Vec<(String, JsonValue)>, key: &str) -> (r: Option<Vec<(String, String)>>)
    ensures
        match (r, sp_pairs_field(members_view(ms@), key@)) {
            (Some(v), Some(sv)) => pairs_view(v@) == sv,
            (None, None) => true,
            _ => false,
        },
{
    match find_value(ms, key, 0) {
        Some(ix) => match &ms[ix].1 {
            JsonValue::Arr(rows) => {
                let empty: Vec<(String, String)> = Vec::new();
                proof {
                    assert(pairs_view(empty@) =~= Seq::<(Seq<char>, Seq<char>)>::empty());
                }
                pairs_of(rows, 0, empty)
            },
            _ => None,
        },
        None => None,
    }
}

fn get_triples_field(ms: &Vec<(String, JsonValue)>, key: &str) -> (r: Option<
    Vec<(String, String, String)>,
>)
    ensures
        match (r, sp_triples_field(members_view(ms@), key@)) {
            (Some(v), Some(sv)) => triples_view(v@) == sv,
            (None, None) => true,
            _ => false,
        },
{
    match find_value(ms, key, 0) {
        Some(ix) => match &ms[ix].1 {
            JsonValue::Arr(rows) => {
                let empty: Vec<(String, String, String)> = Vec::new();
                proof {
                    assert(triples_view(empty@) =~= Seq::<
                        (Seq<char>, Seq<char>, Seq<char>),
                    >::empty());
                }
                triples_of(rows, 0, empty)
            },
            _ => None,
        },
        None => None,
    }
}

/// Decodes one inbound frame text under the given flags. `Err(Decode)`
/// exactly when the text is not one well-formed object, its tag is missing
/// or not a string, or an *active* schema's field is missing or ill-typed.
pub fn decode_frame(s: &str, flags: NotificationFlags) -> (r: Result<Frame, Error>)
    ensures
        match r {
            Ok(f) => sp_decode_frame(s@, flags) == Some(frame_view(f)),
            Err(e) => sp_decode_frame(s@, flags) is None && e == Error::Decode,
        },
{
    let ms = match parse_frame_members(s) {
        Some(ms) => ms,
        None => {
            return Err(Error::Decode);
        },
    };
    let tag = match get_str_field(&ms, "type") {
        Some(t) => t,
        None => {
            return Err(Error::Decode);
        },
    };
    if str_eq(tag.as_str(), "subscribe") {
        Ok(Frame::SubscribeAck)
    } else if str_eq(tag.as_str(), "snapshot") {
        if !flags.order_book {
            return Ok(Frame::Other);
        }
        let bids = match get_pairs_field(&ms, "bids") {
            Some(v) => v,
            None => {
                return Err(Error::Decode);
            },
        };
        let asks = match get_pairs_field(&ms, "asks") {
            Some(v) => v,
            None => {
                return Err(Error::Decode);
            },
        };
        Ok(Frame::Snapshot { bids, asks })
    } else if str_eq(tag.as_str(), "l2update") {
        if !flags.order_book {
            return Ok(Frame::Other);
        }
        let changes = match get_triples_field(&ms, "changes") {
            Some(v) => v,
            None => {
                return Err(Error::Decode);
            },
        };
        Ok(Frame::L2Update { changes })
    } else if str_eq(tag.as_str(), "match") {
        if !flags.trades && !flags.orders {
            return Ok(Frame::Other);
        }
        let time = match get_str_field(&ms, "time") {
            Some(v) => v,
            None => {
                return Err(Error::Decode);
            },
        };
        let size = match get_str_field(&ms, "size") {
            Some(v) => v,
            None => {
                return Err(Error::Decode);
            },
        };
        let price = match get_str_field(&ms, "price") {
            Some(v) => v,
            None => {
                return Err(Error::Decode);
            },
        };
        let side = match get_str_field(&ms, "side") {
            Some(v) => v,
            None => {
                return Err(Error::Decode);
            },
        };
        let maker_order_id = match get_str_field(&ms, "maker_order_id") {
            Some(v) => v,
            None => {
                return Err(Error::Decode);
            },
        };
        let taker_order_id = match get_str_field(&ms, "taker_order_id") {
            Some(v) => v,
            None => {
                return Err(Error::Decode);
            },
        };
        let profile_id = match get_opt_str_field(&ms, "profile_id") {
            Some(v) => v,
            None => {
                return Err(Error::Decode);
            },
        };
        Ok(Frame::Match { time, size, price, side, maker_order_id, taker_order_id, profile_id })
    } else if str_eq(tag.as_str(), "received") {
        if !flags.orders {
            return Ok(Frame::Other);
        }
        let time = match get_str_field(&ms, "time") {
            Some(v) => v,
            None => {
                return Err(Error::Decode);
            },
        };
        let client_oid = match get_opt_str_field(&ms, "client_oid") {
            Some(v) => v,
            None => {
                return Err(Error::Decode);
            },
        };
        let order_id = match get_str_field(&ms, "order_id") {
            Some(v) => v,
            None => {
                return Err(Error::Decode);
            },
        };
        let size = match get_str_field(&ms, "size") {
            Some(v) => v,
            None => {
                return Err(Error::Decode);
            },
        };
        let price = match get_str_field(&ms, "price") {
            Some(v) => v,
            None => {
                return Err(Error::Decode);
            },
        };
        let side = match get_str_field(&ms, "side") {
            Some(v) => v,
            None => {
                return Err(Error::Decode);
            },
        };
        Ok(Frame::Received { time, client_oid, order_id, size, price, side })
    } else if str_eq(tag.as_str(), "done") {
        if !flags.orders {
            return Ok(Frame::Other);
        }
        let reason = match get_str_field(&ms, "reason") {
            Some(v) => v,
            None => {
                return Err(Error::Decode);
            },
        };
        let order_id = match get_str_field(&ms, "order_id") {
            Some(v) => v,
            None => {
                return Err(Error::Decode);
            },
        };
        let time = match get_str_field(&ms, "time") {
            Some(v) => v,
            None => {
                return Err(Error::Decode);
            },
        };
        Ok(Frame::Done { reason, order_id, time })
    } else if str_eq(tag.as_str(), "error") {
        // an error frame of any shape is decoded; a missing message is
        // reported as an empty one
        let message = match get_str_field(&ms, "message") {
            Some(v) => v,
            None => String::new(),
        };
        Ok(Frame::ErrorFrame { message })
    } else {
        Ok(Frame::Other)
    }
}

} // verus!
