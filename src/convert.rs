use vstd::prelude::*;
use crate::json::{entries_view, object_from, Json, JsonModel};
use crate::render::{json_text, json_to_text};
use crate::decimal::signed_be_text;
use crate::text::{hex_encode, hex_text, int_text};
use crate::value::{fits_depth, f32_bits_finite, f64_bits_finite, signed_be, Decimal, Unscaled, Value};

verus! {

/// How deep lists, maps and records may nest before conversion gives up.
pub const MAX_DEPTH: usize = 128;

/// Day number of 1970-01-01 counted from 0001-01-01 as day one.
pub const EPOCH_CE_DAYS: i32 = 719_163;

/// Why a value could not be converted.
#[derive(PartialEq, Eq, Structural, Debug, Clone, Copy)]
pub enum ConvertError {
    UnrepresentableValue,
    StructureTooDeep,
}

/// The calendar text (`YYYY-MM-DD`) of a day counted from 0001-01-01 as day
/// one, or nothing where the day lies outside the calendar's range.
pub uninterp spec fn calendar_date_text(ce_days: int) -> Option<Seq<char>>;

/// The UTC date-time text of a moment given as whole seconds since the epoch
/// and nanoseconds, or nothing where the moment is out of range.
pub uninterp spec fn utc_timestamp_text(secs: int, nanos: int) -> Option<Seq<char>>;

/// Relies on chrono's `NaiveDate::from_num_days_from_ce_opt` and the date's
/// `Display`: the result depends on the day number alone, and there is a
/// date exactly for the days of the years -262143 to 262142, which hold all
/// days within ninety million of 0001-01-01 and none a hundred million or
/// more away.
#[verifier::external_body]
fn ce_date_text(ce_days: i32) -> (r: Option<String>)
    ensures
        r.is_some() == calendar_date_text(ce_days as int).is_some(),
        -90_000_000 <= ce_days <= 90_000_000 ==> r.is_some(),
        (ce_days <= -100_000_000 || ce_days >= 100_000_000) ==> r.is_none(),
        r matches Some(s) ==> calendar_date_text(ce_days as int) == Some(s@),
{
    match chrono::NaiveDate::from_num_days_from_ce_opt(ce_days) {
        Some(d) => Some(d.to_string()),
        None => None,
    }
}

/// Relies on chrono's `DateTime::from_timestamp` and the UTC date-time's
/// `Display`: the result depends on the seconds and nanoseconds alone, and
/// there is one for every moment whose day lies in the calendar's range
/// (within seven trillion seconds of the epoch) with fewer than a billion
/// nanoseconds, and none nine trillion seconds or more away.
#[verifier::external_body]
fn utc_text(secs: i64, nanos: u32) -> (r: Option<String>)
    ensures
        r.is_some() == utc_timestamp_text(secs as int, nanos as int).is_some(),
        -7_000_000_000_000 <= secs <= 7_000_000_000_000 && nanos < 1_000_000_000 ==> r.is_some(),
        (secs <= -9_000_000_000_000 || secs >= 9_000_000_000_000) ==> r.is_none(),
        r matches Some(s) ==> utc_timestamp_text(secs as int, nanos as int) == Some(s@),
{
    match chrono::DateTime::from_timestamp(secs, nanos) {
        Some(t) => Some(t.to_string()),
        None => None,
    }
}

/// The text of a decimal's unscaled integer: its signed base-10 value.
pub open spec fn unscaled_text(b: Seq<u8>) -> Seq<char> {
    int_text(signed_be(b))
}

/// A date given as days since 1970-01-01.
pub open spec fn date_json(days: int) -> JsonModel {
    if days + EPOCH_CE_DAYS > i32::MAX {
        JsonModel::Null
    } else {
        match calendar_date_text(days + EPOCH_CE_DAYS) {
            Some(s) => JsonModel::Str(s),
            None => JsonModel::Null,
        }
    }
}

/// A timestamp in units of `1 / divisor` seconds, where `divisor * scale`
/// is one second in nanoseconds. The sub-second part is the truncated
/// remainder; a negative one is out of range.
pub open spec fn timestamp_json(t: int, divisor: int, scale: int) -> JsonModel {
    let secs = if t >= 0 { t / divisor } else { -((-t) / divisor) };
    let sub = if t >= 0 { t % divisor } else { -((-t) % divisor) };
    if sub < 0 {
        JsonModel::Null
    } else {
        match utc_timestamp_text(secs, sub * scale) {
            Some(s) => JsonModel::Str(s),
            None => JsonModel::Null,
        }
    }
}

/// A decimal's unscaled integer as base-10 text; the scale is not applied.
fn decimal_to_json(d: &Decimal) -> (r: Json)
    ensures
        r@ == JsonModel::Str(unscaled_text(d.unscaled.bytes())),
{
    match &d.unscaled {
        Unscaled::Four(b) => Json::Str(signed_be_text(b.as_slice())),
        Unscaled::Eight(b) => Json::Str(signed_be_text(b.as_slice())),
        Unscaled::Bytes(b) => Json::Str(signed_be_text(b.as_slice())),
    }
}


/// Position of the last entry whose key is `k`, or -1.
pub open spec fn key_pos<J>(s: Seq<(Seq<char>, J)>, k: Seq<char>) -> int
    decreases s.len(),
{
    if s.len() == 0 {
        -1
    } else if s.last().0 == k {
        s.len() - 1
    } else {
        key_pos(s.drop_last(), k)
    }
}

/// One entry per key, in order of first appearance, each holding the value
/// of the last entry with that key.
pub open spec fn last_wins<J>(s: Seq<(Seq<char>, J)>) -> Seq<(Seq<char>, J)>
    decreases s.len(),
{
    if s.len() == 0 {
        s
    } else {
        let prev = last_wins(s.drop_last());
        let p = key_pos(prev, s.last().0);
        if p >= 0 {
            prev.update(p, s.last())
        } else {
            prev.push(s.last())
        }
    }
}

/// Each field's name beside the JSON value its cell converts to.
pub open spec fn fields_json(fields: Seq<(String, Value)>) -> Seq<(Seq<char>, JsonModel)>
    decreases fields,
{
    Seq::new(
        fields.len(),
        |i: int|
            if 0 <= i < fields.len() {
                (fields[i].0@, json_of(&fields[i].1))
            } else {
                (Seq::<char>::empty(), JsonModel::Null)
            },
    )
}

/// Each map key's JSON text beside the JSON value its value converts to.
pub open spec fn pairs_json(pairs: Seq<(Value, Value)>) -> Seq<(Seq<char>, JsonModel)>
    decreases pairs,
{
    Seq::new(
        pairs.len(),
        |i: int|
            if 0 <= i < pairs.len() {
                (json_text(json_of(&pairs[i].0)), json_of(&pairs[i].1))
            } else {
                (Seq::<char>::empty(), JsonModel::Null)
            },
    )
}

/// The JSON value that a cell converts to. A map becomes an object keyed by
/// the JSON text of each converted key, the last pair of a key winning.
pub open spec fn json_of(v: &Value) -> JsonModel
    decreases v,
{
    match v {
        Value::Null => JsonModel::Null,
        Value::Bool(b) => JsonModel::Bool(*b),
        Value::Int8(x) => JsonModel::Int(*x as int),
        Value::Int16(x) => JsonModel::Int(*x as int),
        Value::Int32(x) => JsonModel::Int(*x as int),
        Value::Int64(x) => JsonModel::Int(*x as int),
        Value::UInt8(x) => JsonModel::UInt(*x as int),
        Value::UInt16(x) => JsonModel::UInt(*x as int),
        Value::UInt32(x) => JsonModel::UInt(*x as int),
        Value::UInt64(x) => JsonModel::UInt(*x as int),
        Value::Float32(b) => if f32_bits_finite(*b) {
            JsonModel::Float32(*b)
        } else {
            JsonModel::Null
        },
        Value::Float64(b) => if f64_bits_finite(*b) {
            JsonModel::Float64(*b)
        } else {
            JsonModel::Null
        },
        Value::Str(s) => JsonModel::Str(s@),
        Value::Bytes(b) => JsonModel::Str(hex_text(b@)),
        Value::Decimal(d) => JsonModel::Str(unscaled_text(d.unscaled.bytes())),
        Value::Date(days) => date_json(*days as int),
        Value::TimestampMillis(t) => timestamp_json(*t as int, 1000, 1_000_000),
        Value::TimestampMicros(t) => timestamp_json(*t as int, 1_000_000, 1000),
        Value::List(items) => JsonModel::Array(
            Seq::new(
                items.len() as nat,
                |i: int|
                    if 0 <= i < items.len() {
                        json_of(&items[i])
                    } else {
                        JsonModel::Null
                    },
            ),
        ),
        Value::KeyValue(pairs) => JsonModel::Object(last_wins(pairs_json(pairs@))),
        Value::Record(fields) => JsonModel::Object(last_wins(fields_json(fields@))),
    }
}

/// A date given as days since 1970-01-01, or null outside the calendar.
fn date_to_json(days: i32) -> (r: Json)
    ensures
        r@ == date_json(days as int),
        -80_000_000 <= days <= 80_000_000 ==> r@ is Str,
        (days <= -101_000_000 || days >= 101_000_000) ==> r@ == JsonModel::Null,
{
    if days > i32::MAX - EPOCH_CE_DAYS {
        Json::Null
    } else {
        match ce_date_text(days + EPOCH_CE_DAYS) {
            Some(s) => Json::Str(s),
            None => Json::Null,
        }
    }
}

/// A timestamp in units of `1 / divisor` seconds, or null out of range.
fn timestamp_to_json(t: i64, divisor: u64, scale: u64) -> (r: Json)
    requires
        divisor >= 2,
        divisor * scale == 1_000_000_000,
    ensures
        r@ == timestamp_json(t as int, divisor as int, scale as int),
        0 <= t <= 7_000_000_000_000 * divisor ==> r@ is Str,
        (t <= -9_000_000_000_000 * divisor || t >= 9_000_000_000_000 * divisor) ==> r@
            == JsonModel::Null,
{
    if t >= 0 {
        let secs = (t as u64) / divisor;
        let sub = (t as u64) % divisor;
        assert(sub * scale < 1_000_000_000) by (nonlinear_arith)
            requires
                sub < divisor,
                divisor * scale == 1_000_000_000,
        ;
        assert(secs as int == (t as int) / (divisor as int));
        proof {
            if t as int >= 9_000_000_000_000 * divisor {
                assert(secs >= 9_000_000_000_000) by (nonlinear_arith)
                    requires
                        secs as int == (t as int) / (divisor as int),
                        t as int >= 9_000_000_000_000 * divisor,
                        divisor > 0,
                ;
            }
            if t as int <= 7_000_000_000_000 * divisor {
                assert(secs <= 7_000_000_000_000) by (nonlinear_arith)
                    requires
                        secs as int == (t as int) / (divisor as int),
                        t as int <= 7_000_000_000_000 * divisor,
                        divisor > 0,
                        t >= 0,
                ;
            }
        }
        assert(sub as int == (t as int) % (divisor as int));
        match utc_text(secs as i64, (sub * scale) as u32) {
            Some(s) => Json::Str(s),
            None => Json::Null,
        }
    } else {
        let m: u64 = (-(t as i128)) as u64;
        if m % divisor != 0 {
            Json::Null
        } else {
            let q = m / divisor;
            assert(m as int == -(t as int));
            proof {
                if t as int <= -9_000_000_000_000 * divisor {
                    assert(q >= 9_000_000_000_000) by (nonlinear_arith)
                        requires
                            q == m / divisor,
                            m as int >= 9_000_000_000_000 * divisor,
                            divisor > 0,
                    ;
                }
            }
            assert(q <= 0x4000_0000_0000_0000) by (nonlinear_arith)
                requires
                    q == m / divisor,
                    divisor >= 2,
                    m <= 0x8000_0000_0000_0000,
            ;
            assert(-(q as int) == -((-(t as int)) / divisor as int));
            match utc_text(-(q as i64), 0) {
                Some(s) => Json::Str(s),
                None => Json::Null,
            }
        }
    }
}

/// Whether every key and value of a map nests no deeper than `budget`.
pub open spec fn pairs_fit(pairs: Seq<(Value, Value)>, budget: nat) -> bool {
    forall|i: int|
        0 <= i < pairs.len() ==> fits_depth(&(#[trigger] pairs[i]).0, budget) && fits_depth(
            &pairs[i].1,
            budget,
        )
}

/// Whether every field's cell nests no deeper than `budget`.
pub open spec fn fields_fit(fields: Seq<(String, Value)>, budget: nat) -> bool {
    forall|i: int| 0 <= i < fields.len() ==> fits_depth(&(#[trigger] fields[i]).1, budget)
}

/// Index of the last entry whose key is `k`.
fn find_key(out: &Vec<(String, Json)>, k: &String) -> (r: Option<usize>)
    ensures
        key_pos(entries_view(out@), k@) == match r {
            Some(p) => p as int,
            None => -1,
        },
        r matches Some(p) ==> p < out@.len(),
{
    let mut j: usize = out.len();
    assert(entries_view(out@).subrange(0, j as int) =~= entries_view(out@));
    while j > 0
        invariant
            j <= out@.len(),
            key_pos(entries_view(out@), k@) == key_pos(entries_view(out@).subrange(0, j as int), k@),
        decreases j,
    {
        let ghost sub = entries_view(out@).subrange(0, j as int);
        assert(sub.last().0 == out@[j - 1].0@);
        if out[j - 1].0 == *k {
            return Some(j - 1);
        }
        assert(sub.drop_last() =~= entries_view(out@).subrange(0, j - 1));
        j = j - 1;
    }
    None
}

/// Converts the fields of a record, keeping one entry per name with the
/// value of the last field of that name.
fn fields_to_json(fields: &Vec<(String, Value)>, budget: usize) -> (r: Result<Vec<(String, Json)>, ConvertError>)
    ensures
        match r {
            Ok(out) => fields_fit(fields@, budget as nat) && entries_view(out@) == last_wins(fields_json(fields@)),
            Err(e) => !fields_fit(fields@, budget as nat) && e == ConvertError::StructureTooDeep,
        },
    decreases fields, 0nat,
{
    let mut out: Vec<(String, Json)> = Vec::new();
    let mut i: usize = 0;
    assert(fields_json(fields@).subrange(0, 0) =~= Seq::empty());
    assert(entries_view(out@) =~= Seq::empty());
    while i < fields.len()
        invariant
            i <= fields@.len(),
            forall|m: int| 0 <= m < i ==> fits_depth(&(#[trigger] fields@[m]).1, budget as nat),
            entries_view(out@) == last_wins(fields_json(fields@).subrange(0, i as int)),
        decreases fields@.len() - i,
    {
        let j = match convert_within(&fields[i].1, budget) {
            Ok(j) => j,
            Err(e) => {
                assert(!fits_depth(&fields@[i as int].1, budget as nat));
                return Err(e);
            },
        };
        let k = fields[i].0.clone();
        let ghost prefix = fields_json(fields@).subrange(0, i + 1);
        assert(prefix.drop_last() =~= fields_json(fields@).subrange(0, i as int));
        assert(prefix.last() == (k@, j@));
        let ghost prev = entries_view(out@);
        match find_key(&out, &k) {
            Some(p) => {
                out.set(p, (k, j));
                assert(entries_view(out@) =~= prev.update(p as int, prefix.last()));
            },
            None => {
                out.push((k, j));
                assert(entries_view(out@) =~= prev.push(prefix.last()));
            },
        }
        i = i + 1;
    }
    assert(fields_json(fields@).subrange(0, i as int) =~= fields_json(fields@));
    Ok(out)
}

/// Converts a list's items in order, giving up on nesting deeper than `budget`.
fn list_to_json(items: &Vec<Value>, budget: usize) -> (r: Result<Json, ConvertError>)
    ensures
        match r {
            Ok(j) => fits_depth(&Value::List(*items), budget as nat) && j@ == json_of(
                &Value::List(*items),
            ),
            Err(e) => !fits_depth(&Value::List(*items), budget as nat) && e
                == ConvertError::StructureTooDeep,
        },
    decreases items, 0nat,
{
    if budget == 0 {
        return Err(ConvertError::StructureTooDeep);
    }
    let mut out: Vec<Json> = Vec::new();
    let mut i: usize = 0;
    while i < items.len()
        invariant
            0 < budget,
            i <= items@.len(),
            out@.len() == i,
            forall|m: int| 0 <= m < i ==> fits_depth(&items@[m], (budget - 1) as nat),
            forall|m: int| 0 <= m < i ==> (#[trigger] out@[m])@ == json_of(&items@[m]),
        decreases items@.len() - i,
    {
        proof {
            assert(decreases_to!(items => items@[i as int]));
        }
        match convert_within(&items[i], budget - 1) {
            Ok(j) => out.push(j),
            Err(e) => {
                assert(!fits_depth(&items@[i as int], (budget - 1) as nat));
                return Err(e);
            },
        }
        i = i + 1;
    }
    let r = Json::Array(out);
    assert(r@->Array_0 =~= json_of(&Value::List(*items))->Array_0);
    Ok(r)
}

/// Converts a map's pairs: one entry per key text, in order of first
/// appearance, holding the value of the last pair with that key text.
fn pairs_to_json(pairs: &Vec<(Value, Value)>, budget: usize) -> (r: Result<Vec<(String, Json)>, ConvertError>)
    ensures
        match r {
            Ok(out) => pairs_fit(pairs@, budget as nat) && entries_view(out@) == last_wins(
                pairs_json(pairs@),
            ),
            Err(e) => !pairs_fit(pairs@, budget as nat) && e == ConvertError::StructureTooDeep,
        },
    decreases pairs, 0nat,
{
    let mut out: Vec<(String, Json)> = Vec::new();
    let mut i: usize = 0;
    assert(pairs_json(pairs@).subrange(0, 0) =~= Seq::empty());
    assert(entries_view(out@) =~= Seq::empty());
    while i < pairs.len()
        invariant
            i <= pairs@.len(),
            forall|m: int|
                0 <= m < i ==> fits_depth(&(#[trigger] pairs@[m]).0, budget as nat) && fits_depth(
                    &pairs@[m].1,
                    budget as nat,
                ),
            entries_view(out@) == last_wins(pairs_json(pairs@).subrange(0, i as int)),
        decreases pairs@.len() - i,
    {
        proof {
            assert(decreases_to!(pairs => pairs@[i as int]));
        }
        let kj = match convert_within(&pairs[i].0, budget) {
            Ok(j) => j,
            Err(e) => {
                assert(!fits_depth(&pairs@[i as int].0, budget as nat));
                return Err(e);
            },
        };
        let j = match convert_within(&pairs[i].1, budget) {
            Ok(j) => j,
            Err(e) => {
                assert(!fits_depth(&pairs@[i as int].1, budget as nat));
                return Err(e);
            },
        };
        let k = json_to_text(&kj);
        let ghost prefix = pairs_json(pairs@).subrange(0, i + 1);
        assert(prefix.drop_last() =~= pairs_json(pairs@).subrange(0, i as int));
        assert(prefix.last() == (k@, j@));
        let ghost prev = entries_view(out@);
        match find_key(&out, &k) {
            Some(p) => {
                out.set(p, (k, j));
                assert(entries_view(out@) =~= prev.update(p as int, prefix.last()));
            },
            None => {
                out.push((k, j));
                assert(entries_view(out@) =~= prev.push(prefix.last()));
            },
        }
        i = i + 1;
    }
    assert(pairs_json(pairs@).subrange(0, i as int) =~= pairs_json(pairs@));
    Ok(out)
}

/// Converts a map into an object, giving up on nesting deeper than `budget`.
fn map_to_json(pairs: &Vec<(Value, Value)>, budget: usize) -> (r: Result<Json, ConvertError>)
    ensures
        match r {
            Ok(j) => fits_depth(&Value::KeyValue(*pairs), budget as nat) && j@ == json_of(
                &Value::KeyValue(*pairs),
            ),
            Err(e) => !fits_depth(&Value::KeyValue(*pairs), budget as nat) && e
                == ConvertError::StructureTooDeep,
        },
    decreases pairs, 1nat,
{
    if budget == 0 {
        return Err(ConvertError::StructureTooDeep);
    }
    let out = match pairs_to_json(pairs, budget - 1) {
        Ok(out) => out,
        Err(e) => {
            return Err(e);
        },
    };
    let r = object_from(out);
    assert(json_of(&Value::KeyValue(*pairs))->Object_0 == last_wins(pairs_json(pairs@)));
    assert(fits_depth(&Value::KeyValue(*pairs), budget as nat));
    Ok(r)
}

/// Converts a nested record into an object, giving up on nesting deeper
/// than `budget`.
fn group_to_json(fields: &Vec<(String, Value)>, budget: usize) -> (r: Result<Json, ConvertError>)
    ensures
        match r {
            Ok(j) => fits_depth(&Value::Record(*fields), budget as nat) && j@ == json_of(
                &Value::Record(*fields),
            ),
            Err(e) => !fits_depth(&Value::Record(*fields), budget as nat) && e
                == ConvertError::StructureTooDeep,
        },
    decreases fields, 1nat,
{
    if budget == 0 {
        return Err(ConvertError::StructureTooDeep);
    }
    let out = match fields_to_json(fields, budget - 1) {
        Ok(out) => out,
        Err(e) => {
            return Err(e);
        },
    };
    let r = object_from(out);
    assert(json_of(&Value::Record(*fields))->Object_0 == last_wins(fields_json(fields@)));
    assert(fits_depth(&Value::Record(*fields), budget as nat));
    Ok(r)
}

/// Converts one cell, giving up on nesting deeper than `budget`.
fn convert_within(v: &Value, budget: usize) -> (r: Result<Json, ConvertError>)
    ensures
        match r {
            Ok(j) => fits_depth(v, budget as nat) && j@ == json_of(v),
            Err(e) => !fits_depth(v, budget as nat) && e == ConvertError::StructureTooDeep,
        },
    decreases v, 2nat,
{
    match v {
        Value::Null => Ok(Json::Null),
        Value::Bool(b) => Ok(Json::Bool(*b)),
        Value::Int8(x) => Ok(Json::Int(*x as i64)),
        Value::Int16(x) => Ok(Json::Int(*x as i64)),
        Value::Int32(x) => Ok(Json::Int(*x as i64)),
        Value::Int64(x) => Ok(Json::Int(*x)),
        Value::UInt8(x) => Ok(Json::UInt(*x as u64)),
        Value::UInt16(x) => Ok(Json::UInt(*x as u64)),
        Value::UInt32(x) => Ok(Json::UInt(*x as u64)),
        Value::UInt64(x) => Ok(Json::UInt(*x)),
        Value::Float32(b) => if (*b / 0x80_0000) % 0x100 != 0xff {
            Ok(Json::Float32(*b))
        } else {
            Ok(Json::Null)
        },
        Value::Float64(b) => if (*b / 0x10_0000_0000_0000) % 0x800 != 0x7ff {
            Ok(Json::Float64(*b))
        } else {
            Ok(Json::Null)
        },
        Value::Str(s) => Ok(Json::Str(s.clone())),
        Value::Bytes(b) => Ok(Json::Str(hex_encode(b))),
        Value::Decimal(d) => Ok(decimal_to_json(d)),
        Value::Date(days) => Ok(date_to_json(*days)),
        Value::TimestampMillis(t) => Ok(timestamp_to_json(*t, 1000, 1_000_000)),
        Value::TimestampMicros(t) => Ok(timestamp_to_json(*t, 1_000_000, 1000)),
        Value::List(items) => list_to_json(items, budget),
        Value::KeyValue(pairs) => map_to_json(pairs, budget),
        Value::Record(fields) => group_to_json(fields, budget),
    }
}

/// Converts one cell into JSON. Conversion is total on every value that
/// nests no deeper than `MAX_DEPTH`; deeper values are refused.
pub fn field_to_json(v: &Value) -> (r: Result<Json, ConvertError>)
    ensures
        r is Ok <==> fits_depth(v, MAX_DEPTH as nat),
        r matches Ok(j) ==> j@ == json_of(v),
        r matches Err(e) ==> e == ConvertError::StructureTooDeep,
        v matches Value::Date(d) ==> (-80_000_000 <= *d <= 80_000_000 ==> (r matches Ok(j) && j@ is Str)),
        v matches Value::Date(d) ==> ((*d <= -101_000_000 || *d >= 101_000_000) ==> (r matches Ok(j)
            && j@ == JsonModel::Null)),
        v matches Value::TimestampMillis(t) ==> ((*t <= -9_000_000_000_000_000
            || *t >= 9_000_000_000_000_000) ==> (r matches Ok(j) && j@ == JsonModel::Null)),
        v matches Value::TimestampMillis(t) ==> (0 <= *t <= 7_000_000_000_000_000 ==> (r matches Ok(j)
            && j@ is Str)),
        v matches Value::TimestampMicros(t) ==> (0 <= *t <= 7_000_000_000_000_000_000 ==> (r matches Ok(
            j,
        ) && j@ is Str)),
{
    match v {
        Value::Date(d) => Ok(date_to_json(*d)),
        Value::TimestampMillis(t) => Ok(timestamp_to_json(*t, 1000, 1_000_000)),
        Value::TimestampMicros(t) => Ok(timestamp_to_json(*t, 1_000_000, 1000)),
        _ => convert_within(v, MAX_DEPTH),
    }
}

/// Converts a row into a JSON object: one entry per column name, in order of
/// first appearance, holding the value of the last column of that name.
pub fn row_to_json(row: &Vec<(String, Value)>) -> (r: Result<Json, ConvertError>)
    ensures
        r is Ok <==> fields_fit(row@, (MAX_DEPTH - 1) as nat),
        r matches Ok(j) ==> j@ == JsonModel::Object(last_wins(fields_json(row@))),
        r matches Err(e) ==> e == ConvertError::StructureTooDeep,
{
    match fields_to_json(row, MAX_DEPTH - 1) {
        Ok(out) => Ok(object_from(out)),
        Err(e) => Err(e),
    }
}

/// Whether no two entries share a key.
pub open spec fn keys_distinct<J>(s: Seq<(Seq<char>, J)>) -> bool {
    forall|a: int, b: int| 0 <= a < b < s.len() ==> s[a].0 != s[b].0
}

proof fn lemma_key_absent<J>(s: Seq<(Seq<char>, J)>, k: Seq<char>)
    requires
        forall|a: int| 0 <= a < s.len() ==> s[a].0 != k,
    ensures
        key_pos(s, k) == -1,
    decreases s.len(),
{
    if s.len() > 0 {
        lemma_key_absent(s.drop_last(), k);
    }
}

/// Entries with distinct keys are kept as they are, in order.
pub proof fn lemma_distinct_keys_kept<J>(s: Seq<(Seq<char>, J)>)
    requires
        keys_distinct(s),
    ensures
        last_wins(s) == s,
    decreases s.len(),
{
    if s.len() > 0 {
        let d = s.drop_last();
        lemma_distinct_keys_kept(d);
        lemma_key_absent(d, s.last().0);
        assert(d.push(s.last()) =~= s);
    }
}

/// Conversion mirrors structure: a list becomes an array of the converted
/// items in order; a map whose keys have distinct JSON texts becomes an
/// object with those texts as keys, in order, each holding its converted
/// value; a record whose field names are distinct becomes an object with
/// the same names in the same order, each holding its converted value.
pub proof fn lemma_structure_preserved(v: &Value)
    ensures
        v matches Value::List(items) ==> json_of(v) is Array && json_of(v)->Array_0.len()
            == items@.len() && forall|i: int|
            0 <= i < items@.len() ==> json_of(v)->Array_0[i] == json_of(&items@[i]),
        v matches Value::KeyValue(pairs) ==> (keys_distinct(pairs_json(pairs@)) ==> json_of(v)
            is Object && json_of(v)->Object_0.len() == pairs@.len() && forall|i: int|
            0 <= i < pairs@.len() ==> json_of(v)->Object_0[i] == (
                json_text(json_of(&pairs@[i].0)),
                json_of(&pairs@[i].1),
            )),
        v matches Value::Record(fields) ==> (keys_distinct(fields_json(fields@)) ==> json_of(v)
            is Object && json_of(v)->Object_0.len() == fields@.len() && forall|i: int|
            0 <= i < fields@.len() ==> json_of(v)->Object_0[i] == (
                fields@[i].0@,
                json_of(&fields@[i].1),
            )),
{
    if let Value::KeyValue(pairs) = v {
        if keys_distinct(pairs_json(pairs@)) {
            lemma_distinct_keys_kept(pairs_json(pairs@));
        }
    }
    if let Value::Record(fields) = v {
        if keys_distinct(fields_json(fields@)) {
            lemma_distinct_keys_kept(fields_json(fields@));
        }
    }
}

} // verus!
