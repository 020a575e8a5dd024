//! The text under which a cache record is kept in the store: `pending`, or
//! the hours, the computation time and the expiry as decimal numerals
//! separated by single spaces.
use vstd::prelude::*;
use vstd::slice::slice_subrange;
use crate::coordinator::{CacheRecord, EffortEstimate};
use crate::text::{
    chars_equal, chars_to_string, decimal, digits_value, find_char, is_numeral,
    lemma_decimal_is_numeral, lemma_numeral_is_decimal, parse_numeral, push_decimal, to_chars,
};

verus! {

pub open spec fn pending_text() -> Seq<char> {
    seq!['p', 'e', 'n', 'd', 'i', 'n', 'g']
}

pub open spec fn ready_text(hours: nat, computed_at: nat, expires_at: nat) -> Seq<char> {
    decimal(hours) + seq![' '] + decimal(computed_at) + seq![' '] + decimal(expires_at)
}

/// The stored text of a record.
pub open spec fn record_text(record: CacheRecord) -> Seq<char> {
    match record {
        CacheRecord::Pending => pending_text(),
        CacheRecord::Ready(e) => ready_text(e.hours as nat, e.computed_at as nat, e.expires_at as nat),
    }
}

/// The text to store for a record.
pub fn encode_record(record: &CacheRecord) -> (r: String)
    ensures
        r@ == record_text(*record),
{
    let mut out: Vec<char> = Vec::new();
    match record {
        CacheRecord::Pending => {
            out = vec!['p', 'e', 'n', 'd', 'i', 'n', 'g'];
            assert(out@ =~= pending_text());
        },
        CacheRecord::Ready(e) => {
            push_decimal(e.hours, &mut out);
            out.push(' ');
            push_decimal(e.computed_at as u128, &mut out);
            out.push(' ');
            push_decimal(e.expires_at as u128, &mut out);
            assert(out@ =~= record_text(*record));
        },
    }
    chars_to_string(out.as_slice())
}

/// Reads the record stored for `key` back from its text; text that no
/// well-formed record is stored under gives nothing.
pub fn decode_record(key: &str, value: &str) -> (r: Option<CacheRecord>)
    ensures
        match r {
            Some(record) => record.wf() && record_text(record) == value@ && (record matches CacheRecord::Ready(e)
                ==> e.project_key@ == key@),
            None => forall|record: CacheRecord| record.wf() ==> record_text(record) != value@,
        },
{
    let t = to_chars(value);
    let pending = ['p', 'e', 'n', 'd', 'i', 'n', 'g'];
    assert(pending@ =~= pending_text());
    if chars_equal(t.as_slice(), pending.as_slice()) {
        return Some(CacheRecord::Pending);
    }
    let ghost tv = t@;
    proof {
        assert forall|record: CacheRecord| #[trigger] record_text(record) == tv implies record
            is Ready by {
            if record is Pending {
                assert(tv == pending_text());
            }
        }
    }
    let first = find_char(t.as_slice(), 0, ' ');
    let i1 = match first {
        Some(i) => i,
        None => {
            proof { lemma_no_ready_text_without_fields(tv, 0); }
            return None;
        },
    };
    let n = t.len();
    assert(i1 < n);
    let second = find_char(t.as_slice(), i1 + 1, ' ');
    let i2 = match second {
        Some(i) => i,
        None => {
            proof { lemma_no_ready_text_without_fields(tv, 1); }
            return None;
        },
    };
    assert(i2 < n);
    if find_char(t.as_slice(), i2 + 1, ' ').is_some() {
        proof { lemma_no_ready_text_without_fields(tv, 3); }
        return None;
    }
    let f1 = slice_subrange(t.as_slice(), 0, i1);
    let f2 = slice_subrange(t.as_slice(), i1 + 1, i2);
    let f3 = slice_subrange(t.as_slice(), i2 + 1, t.len());
    proof {
        assert(tv =~= f1@ + seq![' '] + f2@ + seq![' '] + f3@);
        lemma_fields_of_ready_text(tv, i1 as int, i2 as int);
    }
    let hours = parse_numeral(f1);
    let computed = parse_numeral(f2);
    let expires = parse_numeral(f3);
    proof {
        assert forall|record: CacheRecord| #[trigger] record_text(record) == tv implies hours
            == Some(record->Ready_0.hours) && computed == Some(record->Ready_0.computed_at as u128)
            && expires == Some(record->Ready_0.expires_at as u128) by {
            let e = record->Ready_0;
            assert(ready_text(e.hours as nat, e.computed_at as nat, e.expires_at as nat) == tv);
            lemma_decimal_is_numeral(e.hours as nat);
            lemma_decimal_is_numeral(e.computed_at as nat);
            lemma_decimal_is_numeral(e.expires_at as nat);
        }
    }
    match (hours, computed, expires) {
        (Some(h), Some(c), Some(x)) => {
            if c > u64::MAX as u128 || x > u64::MAX as u128 || x <= c {
                return None;
            }
            proof {
                lemma_numeral_is_decimal(f1@);
                lemma_numeral_is_decimal(f2@);
                lemma_numeral_is_decimal(f3@);
            }
            let e = EffortEstimate {
                project_key: chars_to_string(to_chars(key).as_slice()),
                hours: h,
                computed_at: c as u64,
                expires_at: x as u64,
            };
            Some(CacheRecord::Ready(e))
        },
        _ => None,
    }
}

/// Where the text splits at its first two spaces with no third, any ready
/// text equal to it has exactly those three fields as its numerals.
proof fn lemma_fields_of_ready_text(t: Seq<char>, i1: int, i2: int)
    requires
        0 <= i1 < i2 < t.len(),
        t[i1] == ' ',
        t[i2] == ' ',
        forall|k: int| 0 <= k < i1 ==> t[k] != ' ',
        forall|k: int| i1 < k < i2 ==> t[k] != ' ',
        forall|k: int| i2 < k < t.len() ==> t[k] != ' ',
    ensures
        forall|h: nat, c: nat, x: nat|
            #![trigger ready_text(h, c, x)]
            ready_text(h, c, x) == t ==> decimal(h) == t.subrange(0, i1) && decimal(c)
                == t.subrange(i1 + 1, i2) && decimal(x) == t.subrange(i2 + 1, t.len() as int),
{
    assert forall|h: nat, c: nat, x: nat|
        #![trigger ready_text(h, c, x)]
        ready_text(h, c, x) == t implies decimal(h) == t.subrange(0, i1) && decimal(c)
            == t.subrange(i1 + 1, i2) && decimal(x) == t.subrange(i2 + 1, t.len() as int) by {
        let a = decimal(h);
        let b = decimal(c);
        let d = decimal(x);
        lemma_decimal_is_numeral(h);
        lemma_decimal_is_numeral(c);
        lemma_decimal_is_numeral(x);
        assert(t[a.len() as int] == ' ');
        assert(t[(a.len() + 1 + b.len()) as int] == ' ');
        if a.len() < i1 {
            assert(t[a.len() as int] != ' ');
        }
        if a.len() > i1 {
            assert(a[i1] == t[i1]);
            assert(a.contains(' '));
        }
        assert(a.len() == i1);
        if a.len() + 1 + b.len() < i2 {
            assert(t[(a.len() + 1 + b.len()) as int] != ' ');
        }
        if a.len() + 1 + b.len() > i2 {
            assert(b[i2 - i1 - 1] == t[i2]);
            assert(b.contains(' '));
        }
        assert(a =~= t.subrange(0, i1));
        assert(b =~= t.subrange(i1 + 1, i2));
        assert(d =~= t.subrange(i2 + 1, t.len() as int));
    }
}

/// Every ready text has exactly two spaces: text with fewer (`spaces` 0 or
/// 1, the spaces found from the start) or more (3) is none.
proof fn lemma_no_ready_text_without_fields(t: Seq<char>, spaces: int)
    requires
        spaces == 0 ==> forall|k: int| 0 <= k < t.len() ==> t[k] != ' ',
        spaces == 1 ==> exists|i1: int|
            0 <= i1 < t.len() && t[i1] == ' ' && (forall|k: int| 0 <= k < i1 ==> t[k] != ' ')
                && (forall|k: int| i1 < k < t.len() ==> t[k] != ' '),
        spaces == 3 ==> exists|i1: int, i2: int, i3: int|
            0 <= i1 < i2 < i3 < t.len() && t[i1] == ' ' && t[i2] == ' ' && t[i3] == ' ',
        spaces == 0 || spaces == 1 || spaces == 3,
    ensures
        forall|h: nat, c: nat, x: nat| #[trigger] ready_text(h, c, x) != t,
{
    assert forall|h: nat, c: nat, x: nat| #[trigger] ready_text(h, c, x) != t by {
        if ready_text(h, c, x) == t {
            lemma_ready_text_spaces(h, c, x);
            let j1 = decimal(h).len() as int;
            let j2 = j1 + 1 + decimal(c).len();
            assert(t[j1] == ' ');
            if spaces == 1 {
                let i1 = choose|i1: int|
                    0 <= i1 < t.len() && t[i1] == ' ' && (forall|k: int| 0 <= k < i1 ==> t[k] != ' ')
                        && (forall|k: int| i1 < k < t.len() ==> t[k] != ' ');
                assert(i1 == j1 || i1 == j2);
            }
            if spaces == 3 {
                let (i1, i2, i3) = choose|i1: int, i2: int, i3: int|
                    0 <= i1 < i2 < i3 < t.len() && t[i1] == ' ' && t[i2] == ' ' && t[i3] == ' ';
                assert(i1 == j1 || i1 == j2);
            }
        }
    }
}

/// The spaces of a ready text are the two separators.
proof fn lemma_ready_text_spaces(h: nat, c: nat, x: nat)
    ensures
        ({
            let t = ready_text(h, c, x);
            let i1 = decimal(h).len() as int;
            let i2 = i1 + 1 + decimal(c).len();
            &&& 0 <= i1 < i2 < t.len()
            &&& t[i1] == ' '
            &&& t[i2] == ' '
            &&& forall|k: int| 0 <= k < i1 ==> t[k] != ' '
            &&& forall|k: int| i1 < k < i2 ==> t[k] != ' '
            &&& forall|k: int| i2 < k < t.len() ==> t[k] != ' '
        }),
{
    let t = ready_text(h, c, x);
    let (a, b, d) = (decimal(h), decimal(c), decimal(x));
    lemma_decimal_is_numeral(h);
    lemma_decimal_is_numeral(c);
    lemma_decimal_is_numeral(x);
    let i1 = a.len() as int;
    let i2 = i1 + 1 + b.len();
    assert forall|k: int| 0 <= k < i1 implies t[k] != ' ' by {
        assert(t[k] == a[k]);
        if a[k] == ' ' {
            assert(a.contains(' '));
        }
    }
    assert forall|k: int| i1 < k < i2 implies t[k] != ' ' by {
        assert(t[k] == b[k - i1 - 1]);
        if b[k - i1 - 1] == ' ' {
            assert(b.contains(' '));
        }
    }
    assert forall|k: int| i2 < k < t.len() implies t[k] != ' ' by {
        assert(t[k] == d[k - i2 - 1]);
        if d[k - i2 - 1] == ' ' {
            assert(d.contains(' '));
        }
    }
}

/// The stored text determines the record: two records stored under the same
/// text are both `Pending`, or both `Ready` with the same hours, computation
/// time and expiry. With the contract of `decode_record`, decoding the text
/// of a well-formed record gives that record back.
pub proof fn lemma_record_text_determines_record(a: CacheRecord, b: CacheRecord)
    requires
        record_text(a) == record_text(b),
    ensures
        a is Pending <==> b is Pending,
        a is Ready ==> a->Ready_0.hours == b->Ready_0.hours && a->Ready_0.computed_at
            == b->Ready_0.computed_at && a->Ready_0.expires_at == b->Ready_0.expires_at,
{
    let t = record_text(a);
    assert(!pending_text().contains(' ')) by {
        if pending_text().contains(' ') {
            let k = choose|k: int| 0 <= k < pending_text().len() && pending_text()[k] == ' ';
        }
    }
    match a {
        CacheRecord::Pending => {
            if let CacheRecord::Ready(e) = b {
                lemma_ready_text_spaces(e.hours as nat, e.computed_at as nat, e.expires_at as nat);
                assert(t[decimal(e.hours as nat).len() as int] == ' ');
            }
        },
        CacheRecord::Ready(e) => {
            let (h, c, x) = (e.hours as nat, e.computed_at as nat, e.expires_at as nat);
            lemma_ready_text_spaces(h, c, x);
            let i1 = decimal(h).len() as int;
            let i2 = i1 + 1 + decimal(c).len();
            assert(t[i1] == ' ');
            match b {
                CacheRecord::Pending => {},
                CacheRecord::Ready(f) => {
                    let (h2, c2, x2) = (f.hours as nat, f.computed_at as nat, f.expires_at as nat);
                    lemma_fields_of_ready_text(t, i1, i2);
                    assert(ready_text(h2, c2, x2) == t);
                    assert(ready_text(h, c, x) == t);
                    lemma_decimal_is_numeral(h);
                    lemma_decimal_is_numeral(c);
                    lemma_decimal_is_numeral(x);
                    lemma_decimal_is_numeral(h2);
                    lemma_decimal_is_numeral(c2);
                    lemma_decimal_is_numeral(x2);
                },
            }
        },
    }
}

} // verus!
