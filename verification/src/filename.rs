//! The filename parser: decodes a document's identity from its file name.
//! A document is named `<id>-<YYYYMMDD>-<slug>` with a fixed `.md`
//! extension; anything else is not a document and is reported with the
//! stage that refused it.
use crate::date::all_digits;
use crate::date::digits_val;
use crate::date::is_digit;
use crate::date::parse_date;
use crate::date::spec_parse_date;
use crate::date::Date;
use crate::text::first_idx;
use crate::text::lemma_first_idx_is;
use crate::text::scan_char;
use vstd::prelude::*;

verus! {

/// Why a file name was refused.
#[derive(Clone, Copy, PartialEq, Eq, Structural, Debug)]
pub enum NameError {
    /// Stripping the extension did not leave exactly three dash-delimited
    /// parts.
    NotThreeParts,
    /// The first part is not a non-negative integer that fits in 32 bits.
    InvalidId,
    /// The second part is not a valid `YYYYMMDD` date.
    InvalidDate,
}

/// A decoded document name.
pub struct ParsedName {
    pub id: u32,
    pub date: Date,
    pub slug: String,
}

/// Does `s` end with the fixed `.md` extension?
pub open spec fn ends_md(s: Seq<char>) -> bool {
    s.len() >= 3 && s[s.len() - 3] == '.' && s[s.len() - 2] == 'm' && s[s.len() - 1] == 'd'
}

/// `s` with every trailing `.md` removed.
pub open spec fn strip_md(s: Seq<char>) -> Seq<char>
    decreases s.len(),
{
    if ends_md(s) {
        strip_md(s.take(s.len() - 3))
    } else {
        s
    }
}

/// What Rust's `u32` parsing accepts: an optional leading `+`, then one
/// or more decimal digits, with a value that fits in 32 bits.
pub open spec fn spec_parse_u32(s: Seq<char>) -> Option<u32> {
    let ds = if s.len() > 0 && s[0] == '+' {
        s.drop_first()
    } else {
        s
    };
    if ds.len() > 0 && all_digits(ds) && digits_val(ds) <= u32::MAX {
        Some(digits_val(ds) as u32)
    } else {
        None
    }
}

proof fn lemma_digits_val_step_ge(s: Seq<char>)
    requires
        s.len() > 0,
        is_digit(s.last()),
        digits_val(s.drop_last()) >= 0,
    ensures
        digits_val(s) >= digits_val(s.drop_last()),
        digits_val(s) >= 0,
{
}

/// Parses a non-negative 32-bit integer exactly as `spec_parse_u32`
/// describes.
pub fn parse_u32(s: &str) -> (r: Option<u32>)
    ensures
        r == spec_parse_u32(s@),
{
    let n: usize = s.unicode_len();
    let st: usize = if n > 0 && s.get_char(0) == '+' {
        1
    } else {
        0
    };
    let ghost ds = if s@.len() > 0 && s@[0] == '+' {
        s@.drop_first()
    } else {
        s@
    };
    proof {
        assert(ds =~= s@.subrange(st as int, n as int));
    }
    if st == n {
        return None;
    }
    let mut acc: u64 = 0;
    let mut over = false;
    let mut i: usize = st;
    while i < n
        invariant
            st <= i <= n == s@.len(),
            st <= 1,
            st == 1 <==> (s@.len() > 0 && s@[0] == '+'),
            ds == (if s@.len() > 0 && s@[0] == '+' {
                s@.drop_first()
            } else {
                s@
            }),
            ds == s@.subrange(st as int, n as int),
            all_digits(ds.take(i - st)),
            !over ==> acc == digits_val(ds.take(i - st)) && acc <= u32::MAX,
            over ==> digits_val(ds.take(i - st)) > u32::MAX,
        decreases n - i,
    {
        let c = s.get_char(i);
        let ghost pre = ds.take(i - st);
        proof {
            assert(ds.take(i + 1 - st).drop_last() =~= pre);
            assert(ds.take(i + 1 - st).last() == ds[i - st]);
            assert(ds[i - st] == s@[i as int]);
        }
        if !('0' <= c && c <= '9') {
            proof {
                assert(ds[i - st] == c);
                assert(!all_digits(ds));
            }
            return None;
        }
        let d: u32 = (c as u32) - ('0' as u32);
        proof {
            crate::date::lemma_digits_val_nonneg(pre);
            lemma_digits_val_step_ge(ds.take(i + 1 - st));
        }
        if !over {
            acc = acc * 10 + (d as u64);
            if acc > 0xffff_ffff {
                over = true;
            }
        }
        i = i + 1;
    }
    proof {
        assert(ds.take(n - st) =~= ds);
    }
    if over {
        None
    } else {
        Some(acc as u32)
    }
}

/// The filename decoding rule. Strip every trailing `.md`; split the rest
/// at the first two dashes into id, date and slug; the id must parse as a
/// `u32` and the date under the fixed `YYYYMMDD` pattern.
pub open spec fn spec_parse_filename(name: Seq<char>) -> Result<(u32, Date, Seq<char>), NameError> {
    let t = strip_md(name);
    let i = first_idx(t, '-');
    if i == t.len() {
        Err(NameError::NotThreeParts)
    } else {
        let rest = t.skip(i + 1);
        let j = first_idx(rest, '-');
        if j == rest.len() {
            Err(NameError::NotThreeParts)
        } else {
            match spec_parse_u32(t.take(i)) {
                None => Err(NameError::InvalidId),
                Some(id) => match spec_parse_date(rest.take(j)) {
                    None => Err(NameError::InvalidDate),
                    Some(d) => Ok((id, d, rest.skip(j + 1))),
                },
            }
        }
    }
}

/// Decodes `(id, date, slug)` from a file name, or reports the stage that
/// refused it, exactly as `spec_parse_filename` describes.
#[verifier::rlimit(60)]
pub fn parse_filename(name: &str) -> (r: Result<ParsedName, NameError>)
    ensures
        match (r, spec_parse_filename(name@)) {
            (Ok(p), Ok(m)) => p.id == m.0 && p.date == m.1 && p.slug@ == m.2,
            (Err(e), Err(f)) => e == f,
            _ => false,
        },
{
    let mut end: usize = name.unicode_len();
    proof {
        assert(name@.take(end as int) =~= name@);
    }
    let mut going = true;
    while going
        invariant
            end <= name@.len(),
            strip_md(name@) == strip_md(name@.take(end as int)),
            !going ==> !ends_md(name@.take(end as int)),
        decreases end, (if going { 1int } else { 0int }),
    {
        if end >= 3 {
            let dot = name.get_char(end - 3);
            let em = name.get_char(end - 2);
            let dee = name.get_char(end - 1);
            if dot == '.' && em == 'm' && dee == 'd' {
                proof {
                    let cur = name@.take(end as int);
                    assert(ends_md(cur));
                    assert(cur.take(cur.len() - 3) =~= name@.take(end - 3));
                }
                end = end - 3;
            } else {
                going = false;
            }
        } else {
            going = false;
        }
    }
    let stem = name.substring_char(0, end);
    proof {
        assert(stem@ =~= strip_md(name@));
    }
    let slen: usize = stem.unicode_len();
    let i: usize = scan_char(stem, 0, '-');
    if i == slen {
        proof {
            lemma_first_idx_is(stem@, '-', i as int);
        }
        return Err(NameError::NotThreeParts);
    }
    proof {
        lemma_first_idx_is(stem@, '-', i as int);
    }
    let ghost rest = stem@.skip(i + 1);
    let j: usize = scan_char(stem, i + 1, '-');
    proof {
        assert forall|k: int| 0 <= k < rest.len() implies rest[k] == stem@[i + 1 + k] by {}
        if j < slen {
            lemma_first_idx_is(rest, '-', j - (i + 1));
        } else {
            lemma_first_idx_is(rest, '-', rest.len() as int);
        }
    }
    if j == slen {
        return Err(NameError::NotThreeParts);
    }
    let a = stem.substring_char(0, i);
    let b = stem.substring_char(i + 1, j);
    let c = stem.substring_char(j + 1, slen);
    proof {
        assert(a@ =~= stem@.take(i as int));
        assert(b@ =~= rest.take(j - (i + 1)));
        assert(c@ =~= rest.skip(j - (i + 1) + 1));
    }
    let id = match parse_u32(a) {
        Some(v) => v,
        None => {
            return Err(NameError::InvalidId);
        },
    };
    let date = match parse_date(b) {
        Some(d) => d,
        None => {
            return Err(NameError::InvalidDate);
        },
    };
    Ok(ParsedName { id, date, slug: c.to_owned() })
}

} // verus!
