//! The wire form of a partial-match accumulator: the explicit,
//! serializable value that rides the real request path as metadata
//! between independently compiled filter instances.
//!
//! The encoding is a cursor plus one flat, tagged record per
//! collected binding: tag 0 carries an integer, tag 1 a string, tag
//! 2 a boolean, and the unused fields of a record hold fixed
//! defaults.  Decoding rejects any record with an unknown tag, and
//! inverts encoding exactly ([`lemma_wire_round_trip`]): two filter
//! instances that exchange a wire accumulator agree on its contents.
use crate::ir::Value;
use crate::semantics::BindV;
use crate::semantics::ValueV;
use crate::semantics::col_view;
use crate::strutil::clone_string;
use vstd::prelude::*;

verus! {

/// One collected binding on the wire: variable, property, and a
/// tagged value.
#[derive(Debug)]
pub struct WireEntry {
    pub var: String,
    pub prop: String,
    pub tag: u8,
    pub int_val: i64,
    pub str_val: String,
    pub bool_val: bool,
}

/// The accumulator on the wire: the pattern cursor and the collected
/// bindings.
#[derive(Debug)]
pub struct WireAccumulator {
    pub cursor: u64,
    pub entries: Vec<WireEntry>,
}

/// The model of one wire record.
pub type WireEntryV = (Seq<char>, Seq<char>, int, int, Seq<char>, bool);

/// The model of a wire accumulator.
pub open spec fn wire_view(w: WireAccumulator) -> (int, Seq<WireEntryV>) {
    (
        w.cursor as int,
        w.entries@.map_values(
            |e: WireEntry| (e.var@, e.prop@, e.tag as int, e.int_val as int, e.str_val@, e.bool_val),
        ),
    )
}

/// The wire record of one binding.
pub open spec fn encode_entry(b: BindV) -> WireEntryV {
    match b.2 {
        ValueV::I(v) => (b.0, b.1, 0int, v, Seq::empty(), false),
        ValueV::S(s) => (b.0, b.1, 1int, 0int, s, false),
        ValueV::B(x) => (b.0, b.1, 2int, 0int, Seq::empty(), x),
    }
}

/// The wire form of an accumulator.
pub open spec fn encode_spec(cursor: int, col: Seq<BindV>) -> (int, Seq<WireEntryV>) {
    (cursor, col.map_values(|b: BindV| encode_entry(b)))
}

/// The binding a wire record denotes, if its tag is known.
pub open spec fn decode_entry(e: WireEntryV) -> Option<BindV> {
    if e.2 == 0 {
        Some((e.0, e.1, ValueV::I(e.3)))
    } else if e.2 == 1 {
        Some((e.0, e.1, ValueV::S(e.4)))
    } else if e.2 == 2 {
        Some((e.0, e.1, ValueV::B(e.5)))
    } else {
        None
    }
}

/// The first `k` wire records decoded; any unknown tag rejects the
/// whole accumulator.
pub open spec fn decode_entries(es: Seq<WireEntryV>, k: int) -> Option<Seq<BindV>>
    decreases k,
{
    if k <= 0 {
        Some(Seq::empty())
    } else {
        match decode_entries(es, k - 1) {
            None => None,
            Some(prefix) => match decode_entry(es[k - 1]) {
                None => None,
                Some(b) => Some(prefix.push(b)),
            },
        }
    }
}

/// What a wire accumulator denotes, if every record decodes.
pub open spec fn decode_spec(w: (int, Seq<WireEntryV>)) -> Option<(int, Seq<BindV>)> {
    match decode_entries(w.1, w.1.len() as int) {
        None => None,
        Some(col) => Some((w.0, col)),
    }
}

/// Decoding inverts encoding: the wire form carries the accumulator
/// exactly, so the receiving filter instance resumes from the state
/// the sender left.
pub proof fn lemma_wire_round_trip(cursor: int, col: Seq<BindV>)
    ensures
        decode_spec(encode_spec(cursor, col)) == Some((cursor, col)),
{
    let es = col.map_values(|b: BindV| encode_entry(b));
    assert forall|k: int| 0 <= k <= col.len() implies decode_entries(es, k) == Some(
        col.subrange(0, k),
    ) by {
        lemma_wire_entries_round_trip(col, k);
    }
    assert(col.subrange(0, col.len() as int) =~= col);
}

/// Round trip of the first `k` records.
proof fn lemma_wire_entries_round_trip(col: Seq<BindV>, k: int)
    requires
        0 <= k <= col.len(),
    ensures
        decode_entries(col.map_values(|b: BindV| encode_entry(b)), k) == Some(col.subrange(0, k)),
    decreases k,
{
    let es = col.map_values(|b: BindV| encode_entry(b));
    if k <= 0 {
        assert(col.subrange(0, 0) =~= Seq::<BindV>::empty());
    } else {
        lemma_wire_entries_round_trip(col, k - 1);
        assert(es[k - 1] == encode_entry(col[k - 1]));
        assert(decode_entry(encode_entry(col[k - 1])) == Some(col[k - 1]));
        assert(col.subrange(0, k - 1).push(col[k - 1]) =~= col.subrange(0, k));
    }
}

/// Serializes an accumulator for the outgoing request metadata.
pub fn encode(cursor: u64, col: &Vec<(String, String, Value)>) -> (r: WireAccumulator)
    ensures
        wire_view(r) == encode_spec(cursor as int, col_view(col@)),
{
    let mut entries: Vec<WireEntry> = Vec::new();
    let mut k: usize = 0;
    proof {
        assert(wire_view(WireAccumulator { cursor, entries }).1 =~= col_view(col@).subrange(
            0,
            0,
        ).map_values(|b: BindV| encode_entry(b)));
    }
    while k < col.len()
        invariant
            k <= col@.len(),
            entries@.map_values(
                |e: WireEntry| (
                    e.var@,
                    e.prop@,
                    e.tag as int,
                    e.int_val as int,
                    e.str_val@,
                    e.bool_val,
                ),
            ) == col_view(col@).subrange(0, k as int).map_values(|b: BindV| encode_entry(b)),
        decreases col@.len() - k,
    {
        let ghost prev = entries@;
        let var = clone_string(&col[k].0);
        let prop = clone_string(&col[k].1);
        let e = match &col[k].2 {
            Value::Int(v) => WireEntry {
                var,
                prop,
                tag: 0,
                int_val: *v,
                str_val: String::new(),
                bool_val: false,
            },
            Value::Str(s) => WireEntry {
                var,
                prop,
                tag: 1,
                int_val: 0,
                str_val: clone_string(s),
                bool_val: false,
            },
            Value::Bool(b) => WireEntry {
                var,
                prop,
                tag: 2,
                int_val: 0,
                str_val: String::new(),
                bool_val: *b,
            },
        };
        entries.push(e);
        proof {
            let f = |e: WireEntry|
                (e.var@, e.prop@, e.tag as int, e.int_val as int, e.str_val@, e.bool_val);
            assert(entries@.map_values(f) =~= prev.map_values(f).push(
                encode_entry(col_view(col@)[k as int]),
            ));
            assert(col_view(col@).subrange(0, k as int + 1).map_values(
                |b: BindV| encode_entry(b),
            ) =~= col_view(col@).subrange(0, k as int).map_values(|b: BindV| encode_entry(b)).push(
                encode_entry(col_view(col@)[k as int]),
            ));
        }
        k = k + 1;
    }
    let r = WireAccumulator { cursor, entries };
    proof {
        assert(col_view(col@).subrange(0, col@.len() as int) =~= col_view(col@));
        assert(wire_view(r).1 =~= encode_spec(cursor as int, col_view(col@)).1);
    }
    r
}

/// Deserializes an accumulator from incoming request metadata; a
/// record with an unknown tag rejects the message.
pub fn decode(w: &WireAccumulator) -> (r: Option<(u64, Vec<(String, String, Value)>)>)
    ensures
        (match r {
            Some((c, col)) => Some((c as int, col_view(col@))),
            None => None,
        }) == decode_spec(wire_view(*w)),
{
    let ghost es = wire_view(*w).1;
    let mut col: Vec<(String, String, Value)> = Vec::new();
    let mut k: usize = 0;
    proof {
        assert(es.len() == w.entries@.len());
        assert(decode_entries(es, 0) == Some(col_view(col@)));
    }
    while k < w.entries.len()
        invariant
            k <= w.entries@.len(),
            es == wire_view(*w).1,
            es.len() == w.entries@.len(),
            col@.len() == k,
            decode_entries(es, k as int) == Some(col_view(col@)),
        decreases w.entries@.len() - k,
    {
        let ghost prev = col@;
        let e = &w.entries[k];
        proof {
            assert(es[k as int] == (
                e.var@,
                e.prop@,
                e.tag as int,
                e.int_val as int,
                e.str_val@,
                e.bool_val,
            ));
        }
        let v: Value;
        if e.tag == 0 {
            v = Value::Int(e.int_val);
        } else if e.tag == 1 {
            v = Value::Str(clone_string(&e.str_val));
        } else if e.tag == 2 {
            v = Value::Bool(e.bool_val);
        } else {
            proof {
                assert(decode_entry(es[k as int]) is None);
                assert(decode_entries(es, es.len() as int) is None) by {
                    lemma_decode_fail(es, k as int, es.len() as int);
                }
            }
            return None;
        }
        col.push((clone_string(&e.var), clone_string(&e.prop), v));
        proof {
            assert(decode_entry(es[k as int]) == Some(col_view(col@)[k as int]));
            assert(col_view(col@) =~= col_view(prev).push(col_view(col@)[k as int]));
        }
        k = k + 1;
    }
    proof {
        assert(decode_spec(wire_view(*w)) == Some((w.cursor as int, col_view(col@))));
    }
    Some((w.cursor, col))
}

/// A record that fails to decode fails every longer prefix.
proof fn lemma_decode_fail(es: Seq<WireEntryV>, k: int, n: int)
    requires
        0 <= k < n <= es.len(),
        decode_entry(es[k]) is None || decode_entries(es, k) is None,
    ensures
        decode_entries(es, n) is None,
    decreases n - k,
{
    if k + 1 == n {
    } else {
        lemma_decode_fail(es, k, n - 1);
        assert(decode_entries(es, n - 1) is None);
        lemma_decode_fail(es, n - 1, n);
    }
}

} // verus!
