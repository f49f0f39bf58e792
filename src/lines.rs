//! A response body seen as a sequence of lines, and what reading it yields:
//! the last line with each key wins, a missing key leaves the time unknown,
//! and the first malformed value ends the reading.

use vstd::prelude::*;
use crate::parse::parse_i32_spec;
use crate::parse::parse_u64_spec;
use crate::timestamp::in_calendar_range;
use crate::worldtimeapi::apply_line;
use crate::worldtimeapi::as_signed;
use crate::worldtimeapi::current_time_of;
use crate::worldtimeapi::fields_of;
use crate::worldtimeapi::has_prefix;
use crate::worldtimeapi::line_text;
use crate::worldtimeapi::raw_offset_key;
use crate::worldtimeapi::scan;
use crate::worldtimeapi::unixtime_key;
use crate::worldtimeapi::utf8_valid;
use crate::worldtimeapi::Error;
use crate::worldtimeapi::Fields;
use crate::worldtimeapi::CARRIAGE_RETURN;
use crate::worldtimeapi::MAX_OFFSET_SECONDS;
use crate::worldtimeapi::NEWLINE;

verus! {

/// A line as it stands in a body: no newline in it, and no carriage return
/// at its end.
pub open spec fn plain_line(l: Seq<u8>) -> bool {
    &&& forall|k: int| 0 <= k < l.len() ==> l[k] != NEWLINE
    &&& !(l.len() > 0 && l.last() == CARRIAGE_RETURN)
}

/// The body made of `ls`, each line ended by a newline.
pub open spec fn join_lines(ls: Seq<Seq<u8>>) -> Seq<u8>
    decreases ls.len(),
{
    if ls.len() == 0 {
        Seq::empty()
    } else {
        ls[0] + seq![NEWLINE] + join_lines(ls.drop_first())
    }
}

/// What follows `key` on a line that starts with it.
pub open spec fn value_of(l: Seq<u8>, key: Seq<u8>) -> Seq<u8> {
    l.subrange(key.len() as int, l.len() as int)
}

pub open spec fn is_unixtime_line(l: Seq<u8>) -> bool {
    has_prefix(l, unixtime_key())
}

pub open spec fn is_raw_offset_line(l: Seq<u8>) -> bool {
    has_prefix(l, raw_offset_key())
}

/// A plain line whose value, if it has a key, is an integer of the key's
/// type.
pub open spec fn well_formed_line(l: Seq<u8>) -> bool {
    &&& plain_line(l)
    &&& is_unixtime_line(l) ==> parse_u64_spec(value_of(l, unixtime_key())).is_some()
    &&& is_raw_offset_line(l) ==> parse_i32_spec(value_of(l, raw_offset_key())).is_some()
}

/// The timestamp on the last `unixtime: ` line of `ls`; `d` if there is none.
pub open spec fn last_unixtime(ls: Seq<Seq<u8>>, d: Option<u64>) -> Option<u64>
    decreases ls.len(),
{
    if ls.len() == 0 {
        d
    } else if is_unixtime_line(ls.last()) {
        parse_u64_spec(value_of(ls.last(), unixtime_key()))
    } else {
        last_unixtime(ls.drop_last(), d)
    }
}

/// The offset on the last `raw_offset: ` line of `ls`; `d` if there is none.
pub open spec fn last_raw_offset(ls: Seq<Seq<u8>>, d: Option<i32>) -> Option<i32>
    decreases ls.len(),
{
    if ls.len() == 0 {
        d
    } else if is_raw_offset_line(ls.last()) {
        parse_i32_spec(value_of(ls.last(), raw_offset_key()))
    } else {
        last_raw_offset(ls.drop_last(), d)
    }
}

/// No line starts with both keys.
proof fn lemma_keys_differ(l: Seq<u8>)
    ensures
        !(is_unixtime_line(l) && is_raw_offset_line(l)),
{
    if is_unixtime_line(l) && is_raw_offset_line(l) {
        assert(l.subrange(0, 10)[0] == l[0]);
        assert(l.subrange(0, 12)[0] == l[0]);
        assert(unixtime_key()[0] == 117u8);
        assert(raw_offset_key()[0] == 114u8);
    }
}

/// Bytes without a newline do not change the scan.
proof fn lemma_scan_skip(b: Seq<u8>, j: int, k: int, start: int, f: Fields)
    requires
        0 <= j <= k <= b.len(),
        forall|m: int| j <= m < k ==> b[m] != NEWLINE,
    ensures
        scan(b, j, start, f) == scan(b, k, start, f),
    decreases k - j,
{
    if j < k {
        lemma_scan_skip(b, j + 1, k, start, f);
    }
}

/// The scan of a body's tail does not depend on what comes before it.
proof fn lemma_scan_shift(pre: Seq<u8>, s: Seq<u8>, i: int, start: int, f: Fields)
    requires
        0 <= start <= i <= s.len(),
    ensures
        scan(pre + s, pre.len() + i, pre.len() + start, f) == scan(s, i, start, f),
    decreases s.len() - i,
{
    let b = pre + s;
    let p = pre.len() as int;
    if i < s.len() {
        assert(b[p + i] == s[i]);
        assert(b.subrange(p + start, p + i) =~= s.subrange(start, i));
        lemma_scan_shift(pre, s, i + 1, start, f);
        if s[i] == NEWLINE {
            match apply_line(line_text(s, start, i), f) {
                Ok(g) => lemma_scan_shift(pre, s, i + 1, i + 1, g),
                Err(_) => {},
            }
        }
    } else {
        assert(b.subrange(p + start, b.len() as int) =~= s.subrange(start, s.len() as int));
    }
}

proof fn lemma_last_unixtime_first(ls: Seq<Seq<u8>>, d: Option<u64>)
    requires
        ls.len() > 0,
    ensures
        last_unixtime(ls, d) == last_unixtime(ls.drop_first(), last_unixtime(seq![ls[0]], d)),
    decreases ls.len(),
{
    assert(seq![ls[0]].drop_last() =~= Seq::<Seq<u8>>::empty());
    if ls.len() > 1 {
        assert(ls.drop_first().last() == ls.last());
        assert(ls.drop_last()[0] == ls[0]);
        assert(ls.drop_first().drop_last() =~= ls.drop_last().drop_first());
        lemma_last_unixtime_first(ls.drop_last(), d);
    } else {
        assert(ls =~= seq![ls[0]]);
    }
}

proof fn lemma_last_raw_offset_first(ls: Seq<Seq<u8>>, d: Option<i32>)
    requires
        ls.len() > 0,
    ensures
        last_raw_offset(ls, d) == last_raw_offset(ls.drop_first(), last_raw_offset(seq![ls[0]], d)),
    decreases ls.len(),
{
    assert(seq![ls[0]].drop_last() =~= Seq::<Seq<u8>>::empty());
    if ls.len() > 1 {
        assert(ls.drop_first().last() == ls.last());
        assert(ls.drop_last()[0] == ls[0]);
        assert(ls.drop_first().drop_last() =~= ls.drop_last().drop_first());
        lemma_last_raw_offset_first(ls.drop_last(), d);
    } else {
        assert(ls =~= seq![ls[0]]);
    }
}

/// The body of `ls` splits into its first line, a newline, and the rest.
proof fn lemma_join_first(ls: Seq<Seq<u8>>)
    requires
        ls.len() > 0,
        plain_line(ls[0]),
    ensures
        ({
            let b = join_lines(ls);
            let n = ls[0].len() as int;
            &&& n < b.len()
            &&& b[n] == NEWLINE
            &&& forall|m: int| 0 <= m < n ==> b[m] != NEWLINE
            &&& b.subrange(0, n) == ls[0]
            &&& b == (ls[0] + seq![NEWLINE]) + join_lines(ls.drop_first())
            &&& line_text(b, 0, n) == ls[0]
        }),
{
    let b = join_lines(ls);
    let n = ls[0].len() as int;
    assert forall|m: int| 0 <= m < n implies b[m] != NEWLINE by {
        assert(b[m] == ls[0][m]);
    }
    assert(b.subrange(0, n) =~= ls[0]);
}

/// Reading a body of well-formed lines gives, for each key, the value on
/// the last line with that key, or what was read before if none has it.
proof fn lemma_scan_lines(ls: Seq<Seq<u8>>, f: Fields)
    requires
        forall|k: int| 0 <= k < ls.len() ==> well_formed_line(#[trigger] ls[k]),
    ensures
        scan(join_lines(ls), 0, 0, f) == Ok::<Fields, Error>(
            (last_unixtime(ls, f.0), last_raw_offset(ls, f.1)),
        ),
    decreases ls.len(),
{
    if ls.len() > 0 {
        let l = ls[0];
        let rest = ls.drop_first();
        let b = join_lines(ls);
        let n = l.len() as int;
        assert(well_formed_line(ls[0]));
        lemma_join_first(ls);
        lemma_keys_differ(l);
        lemma_scan_skip(b, 0, n, 0, f);
        let g: Fields = (last_unixtime(seq![l], f.0), last_raw_offset(seq![l], f.1));
        assert(seq![l].last() == l);
        assert(seq![l].drop_last() =~= Seq::<Seq<u8>>::empty());
        assert(last_unixtime(Seq::<Seq<u8>>::empty(), f.0) == f.0);
        assert(last_raw_offset(Seq::<Seq<u8>>::empty(), f.1) == f.1);
        assert(apply_line(l, f) == Ok::<Fields, Error>(g));
        lemma_scan_shift(l + seq![NEWLINE], join_lines(rest), 0, 0, g);
        assert forall|k: int| 0 <= k < rest.len() implies well_formed_line(#[trigger] rest[k]) by {
            assert(rest[k] == ls[k + 1]);
        }
        lemma_scan_lines(rest, g);
        lemma_last_unixtime_first(ls, f.0);
        lemma_last_raw_offset_first(ls, f.1);
    }
}

/// The timestamp on line `i`, when no later line has the key.
proof fn lemma_last_unixtime_at(ls: Seq<Seq<u8>>, i: int, d: Option<u64>)
    requires
        0 <= i < ls.len(),
        is_unixtime_line(ls[i]),
        forall|k: int| i < k < ls.len() ==> !is_unixtime_line(#[trigger] ls[k]),
    ensures
        last_unixtime(ls, d) == parse_u64_spec(value_of(ls[i], unixtime_key())),
    decreases ls.len(),
{
    if i < ls.len() - 1 {
        assert(!is_unixtime_line(ls[ls.len() - 1]));
        assert(ls.drop_last()[i] == ls[i]);
        assert forall|k: int| i < k < ls.drop_last().len() implies !is_unixtime_line(
            #[trigger] ls.drop_last()[k],
        ) by {
            assert(ls.drop_last()[k] == ls[k]);
        }
        lemma_last_unixtime_at(ls.drop_last(), i, d);
    }
}

/// The offset on line `i`, when no later line has the key.
proof fn lemma_last_raw_offset_at(ls: Seq<Seq<u8>>, i: int, d: Option<i32>)
    requires
        0 <= i < ls.len(),
        is_raw_offset_line(ls[i]),
        forall|k: int| i < k < ls.len() ==> !is_raw_offset_line(#[trigger] ls[k]),
    ensures
        last_raw_offset(ls, d) == parse_i32_spec(value_of(ls[i], raw_offset_key())),
    decreases ls.len(),
{
    if i < ls.len() - 1 {
        assert(!is_raw_offset_line(ls[ls.len() - 1]));
        assert(ls.drop_last()[i] == ls[i]);
        assert forall|k: int| i < k < ls.drop_last().len() implies !is_raw_offset_line(
            #[trigger] ls.drop_last()[k],
        ) by {
            assert(ls.drop_last()[k] == ls[k]);
        }
        lemma_last_raw_offset_at(ls.drop_last(), i, d);
    }
}

/// With no line that has the key, there is no timestamp.
proof fn lemma_no_unixtime(ls: Seq<Seq<u8>>)
    requires
        forall|k: int| 0 <= k < ls.len() ==> !is_unixtime_line(#[trigger] ls[k]),
    ensures
        last_unixtime(ls, None) == None::<u64>,
    decreases ls.len(),
{
    if ls.len() > 0 {
        assert(!is_unixtime_line(ls[ls.len() - 1]));
        assert forall|k: int| 0 <= k < ls.drop_last().len() implies !is_unixtime_line(
            #[trigger] ls.drop_last()[k],
        ) by {
            assert(ls.drop_last()[k] == ls[k]);
        }
        lemma_no_unixtime(ls.drop_last());
    }
}

/// With no line that has the key, there is no offset.
proof fn lemma_no_raw_offset(ls: Seq<Seq<u8>>)
    requires
        forall|k: int| 0 <= k < ls.len() ==> !is_raw_offset_line(#[trigger] ls[k]),
    ensures
        last_raw_offset(ls, None) == None::<i32>,
    decreases ls.len(),
{
    if ls.len() > 0 {
        assert(!is_raw_offset_line(ls[ls.len() - 1]));
        assert forall|k: int| 0 <= k < ls.drop_last().len() implies !is_raw_offset_line(
            #[trigger] ls.drop_last()[k],
        ) by {
            assert(ls.drop_last()[k] == ls[k]);
        }
        lemma_no_raw_offset(ls.drop_last());
    }
}

/// Last write wins: reading a body of well-formed lines yields, for each
/// key, the value on the last line that carries it.
pub proof fn lemma_last_write_wins(ls: Seq<Seq<u8>>)
    requires
        forall|k: int| 0 <= k < ls.len() ==> well_formed_line(#[trigger] ls[k]),
    ensures
        fields_of(join_lines(ls)) == Ok::<Fields, Error>(
            (last_unixtime(ls, None), last_raw_offset(ls, None)),
        ),
{
    lemma_scan_lines(ls, (None, None));
}

/// Of two or more `unixtime: ` lines, the value on the one met last is the
/// one read.
pub proof fn lemma_later_timestamp_wins(ls: Seq<Seq<u8>>, i: int, j: int)
    requires
        forall|k: int| 0 <= k < ls.len() ==> well_formed_line(#[trigger] ls[k]),
        0 <= i < j < ls.len(),
        is_unixtime_line(ls[i]),
        is_unixtime_line(ls[j]),
        forall|k: int| j < k < ls.len() ==> !is_unixtime_line(#[trigger] ls[k]),
    ensures
        fields_of(join_lines(ls)) matches Ok(f) && f.0 == parse_u64_spec(
            value_of(ls[j], unixtime_key()),
        ),
{
    lemma_scan_lines(ls, (None, None));
    lemma_last_unixtime_at(ls, j, None);
}

/// A body whose lines hold exactly one `unixtime: ` line with `t` and
/// exactly one `raw_offset: ` line with `o`, in either order and among
/// other lines, gives the instant `t` (read as a signed timestamp) seen in
/// offset `o`, so that the local time is `t` shifted by `o` seconds. This
/// holds wherever the offset is within a day and the instant and the local
/// time are representable.
pub proof fn lemma_two_fields_give_time(
    ls: Seq<Seq<u8>>,
    iu: int,
    io: int,
    t: u64,
    o: i32,
)
    requires
        forall|k: int| 0 <= k < ls.len() ==> well_formed_line(#[trigger] ls[k]),
        utf8_valid(join_lines(ls)),
        0 <= iu < ls.len(),
        0 <= io < ls.len(),
        is_unixtime_line(ls[iu]),
        parse_u64_spec(value_of(ls[iu], unixtime_key())) == Some(t),
        is_raw_offset_line(ls[io]),
        parse_i32_spec(value_of(ls[io], raw_offset_key())) == Some(o),
        forall|k: int| 0 <= k < ls.len() && k != iu ==> !is_unixtime_line(#[trigger] ls[k]),
        forall|k: int| 0 <= k < ls.len() && k != io ==> !is_raw_offset_line(#[trigger] ls[k]),
        -MAX_OFFSET_SECONDS <= o <= MAX_OFFSET_SECONDS,
        in_calendar_range(as_signed(t)),
        in_calendar_range(as_signed(t) + o),
    ensures
        current_time_of(join_lines(ls)) == Ok::<(int, int), Error>((as_signed(t), o as int)),
        current_time_of(join_lines(ls)) matches Ok(r) && r.0 + r.1 == as_signed(t) + o,
{
    lemma_scan_lines(ls, (None, None));
    lemma_last_unixtime_at(ls, iu, None);
    lemma_last_raw_offset_at(ls, io, None);
}

/// A body of well-formed lines without a `unixtime: ` line, or without a
/// `raw_offset: ` line, gives no time: the error is `Unknown`.
pub proof fn lemma_missing_field_is_unknown(ls: Seq<Seq<u8>>)
    requires
        forall|k: int| 0 <= k < ls.len() ==> well_formed_line(#[trigger] ls[k]),
        utf8_valid(join_lines(ls)),
        (forall|k: int| 0 <= k < ls.len() ==> !is_unixtime_line(#[trigger] ls[k])) || (forall|
            k: int,
        |
            0 <= k < ls.len() ==> !is_raw_offset_line(#[trigger] ls[k])),
    ensures
        current_time_of(join_lines(ls)) == Err::<(int, int), Error>(Error::Unknown),
{
    lemma_scan_lines(ls, (None, None));
    if forall|k: int| 0 <= k < ls.len() ==> !is_unixtime_line(#[trigger] ls[k]) {
        lemma_no_unixtime(ls);
    } else {
        lemma_no_raw_offset(ls);
    }
}

/// Reading stops with `ParseInt` at line `i`, whose value is malformed,
/// when the lines before it are well-formed.
proof fn lemma_scan_stops(ls: Seq<Seq<u8>>, i: int, f: Fields)
    requires
        0 <= i < ls.len(),
        forall|k: int| 0 <= k < i ==> well_formed_line(#[trigger] ls[k]),
        plain_line(ls[i]),
        forall|g: Fields| apply_line(ls[i], g) == Err::<Fields, Error>(Error::ParseInt),
    ensures
        scan(join_lines(ls), 0, 0, f) == Err::<Fields, Error>(Error::ParseInt),
    decreases i,
{
    let l = ls[0];
    let rest = ls.drop_first();
    let b = join_lines(ls);
    let n = l.len() as int;
    if i == 0 {
        lemma_join_first(ls);
        lemma_scan_skip(b, 0, n, 0, f);
        assert(apply_line(l, f) == Err::<Fields, Error>(Error::ParseInt));
    } else {
        assert(well_formed_line(ls[0]));
        lemma_join_first(ls);
        lemma_keys_differ(l);
        lemma_scan_skip(b, 0, n, 0, f);
        let g: Fields = (last_unixtime(seq![l], f.0), last_raw_offset(seq![l], f.1));
        assert(seq![l].last() == l);
        assert(seq![l].drop_last() =~= Seq::<Seq<u8>>::empty());
        assert(last_unixtime(Seq::<Seq<u8>>::empty(), f.0) == f.0);
        assert(last_raw_offset(Seq::<Seq<u8>>::empty(), f.1) == f.1);
        assert(apply_line(l, f) == Ok::<Fields, Error>(g));
        lemma_scan_shift(l + seq![NEWLINE], join_lines(rest), 0, 0, g);
        assert forall|k: int| 0 <= k < i - 1 implies well_formed_line(#[trigger] rest[k]) by {
            assert(rest[k] == ls[k + 1]);
        }
        assert(rest[i - 1] == ls[i]);
        lemma_scan_stops(rest, i - 1, g);
    }
}

/// A `unixtime: ` line whose value is not an unsigned integer makes the
/// reading fail with `ParseInt`, when the lines before it are well-formed;
/// nothing after it is read.
pub proof fn lemma_malformed_timestamp_is_parse_error(ls: Seq<Seq<u8>>, i: int)
    requires
        0 <= i < ls.len(),
        forall|k: int| 0 <= k < i ==> well_formed_line(#[trigger] ls[k]),
        plain_line(ls[i]),
        is_unixtime_line(ls[i]),
        parse_u64_spec(value_of(ls[i], unixtime_key())) == None::<u64>,
        utf8_valid(join_lines(ls)),
    ensures
        current_time_of(join_lines(ls)) == Err::<(int, int), Error>(Error::ParseInt),
{
    lemma_scan_stops(ls, i, (None, None));
}

/// A body of well-formed lines that has a timestamp and whose last offset
/// lies beyond a day either way gives a range error.
pub proof fn lemma_offset_beyond_a_day(ls: Seq<Seq<u8>>, o: i32)
    requires
        forall|k: int| 0 <= k < ls.len() ==> well_formed_line(#[trigger] ls[k]),
        utf8_valid(join_lines(ls)),
        last_unixtime(ls, None).is_some(),
        last_raw_offset(ls, None) == Some(o),
        o < -MAX_OFFSET_SECONDS || o > MAX_OFFSET_SECONDS,
    ensures
        current_time_of(join_lines(ls)) == Err::<(int, int), Error>(Error::TimeComponentRange),
{
    lemma_scan_lines(ls, (None, None));
}

} // verus!
