//! The metadata extractor: reads the display title from a document body.
//! The first line must literally begin with `# `; everything after that
//! marker is the title, verbatim, with no further trimming or escaping.
use crate::text::first_idx;
use crate::text::lemma_first_idx_is;
use crate::text::scan_char;
use vstd::prelude::*;

verus! {

/// The first line of `s` as Rust's line iteration sees it: up to the
/// first newline, with a carriage return before that newline stripped.
/// An empty body has no first line.
pub open spec fn spec_first_line(s: Seq<char>) -> Option<Seq<char>> {
    if s.len() == 0 {
        None
    } else {
        let nl = first_idx(s, '\n');
        if nl < s.len() {
            let line = s.take(nl);
            if line.len() >= 1 && line.last() == '\r' {
                Some(line.drop_last())
            } else {
                Some(line)
            }
        } else {
            Some(s)
        }
    }
}

/// The title rule: the first line must begin with the fixed `# ` marker;
/// the title is everything after it.
pub open spec fn spec_title(s: Seq<char>) -> Option<Seq<char>> {
    match spec_first_line(s) {
        None => None,
        Some(line) => {
            if line.len() >= 2 && line[0] == '#' && line[1] == ' ' {
                Some(line.skip(2))
            } else {
                None
            }
        },
    }
}

/// Extracts the display title from a document body, exactly as
/// `spec_title` describes.
pub fn extract_title(body: &str) -> (r: Option<String>)
    ensures
        match r {
            Some(t) => spec_title(body@) == Some(t@),
            None => spec_title(body@) is None,
        },
{
    let n: usize = body.unicode_len();
    if n == 0 {
        return None;
    }
    let nl: usize = scan_char(body, 0, '\n');
    proof {
        lemma_first_idx_is(body@, '\n', nl as int);
    }
    let lend: usize = if nl < n {
        if nl >= 1 && body.get_char(nl - 1) == '\r' {
            nl - 1
        } else {
            nl
        }
    } else {
        n
    };
    let ghost line = spec_first_line(body@)->Some_0;
    proof {
        if nl < n {
            let raw = body@.take(nl as int);
            if raw.len() >= 1 && raw.last() == '\r' {
                assert(line =~= body@.take(lend as int));
            } else {
                assert(line =~= body@.take(lend as int));
            }
        } else {
            assert(line =~= body@.take(lend as int));
        }
    }
    if lend < 2 {
        return None;
    }
    let h = body.get_char(0);
    let sp = body.get_char(1);
    if h == '#' && sp == ' ' {
        let t = body.substring_char(2, lend);
        proof {
            assert(t@ =~= line.skip(2));
        }
        Some(t.to_owned())
    } else {
        None
    }
}

} // verus!
