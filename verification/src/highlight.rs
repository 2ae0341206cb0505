//! The syntax highlighter: colors one fenced code block at a time through
//! the `syntect` crate, under a fixed color theme. The declared language
//! token is resolved to a known syntax definition, falling back to plain
//! text, so resolution never fails; the block's text is split into lines
//! (each keeping its terminating newline), every line is colored, and the
//! styled fragments are assembled into one block-level container holding
//! an inline code container.
use crate::text::begins_with;
use crate::text::first_idx;
use crate::text::lemma_first_idx_is;
use crate::text::scan_char;
use syntect::easy::HighlightLines;
use syntect::highlighting::Color;
use syntect::highlighting::Style;
use syntect::highlighting::Theme;
use syntect::highlighting::ThemeSet;
use syntect::parsing::SyntaxReference;
use syntect::parsing::SyntaxSet;
use vstd::prelude::*;

verus! {

#[verifier::external_type_specification]
#[verifier::external_body]
pub struct ExSyntaxSet(SyntaxSet);

#[verifier::external_type_specification]
#[verifier::external_body]
pub struct ExSyntaxReference(SyntaxReference);

#[verifier::external_type_specification]
#[verifier::external_body]
pub struct ExTheme(Theme);

#[verifier::external_type_specification]
#[verifier::external_body]
pub struct ExThemeSet(ThemeSet);

#[verifier::external_type_specification]
#[verifier::external_body]
pub struct ExColor(Color);

#[verifier::external_type_specification]
#[verifier::external_body]
pub struct ExStyle(Style);

#[verifier::external_type_specification]
#[verifier::external_body]
pub struct ExHighlightLines<'a>(HighlightLines<'a>);

/// Relies on `syntect::parsing::SyntaxSet::load_defaults_newlines`: loads
/// the syntax definitions compiled into the crate.
#[verifier::external_body]
fn load_syntax_set() -> (r: SyntaxSet) {
    SyntaxSet::load_defaults_newlines()
}

/// Relies on `syntect::highlighting::ThemeSet::load_defaults`: loads the
/// color themes compiled into the crate.
#[verifier::external_body]
fn load_theme_set() -> (r: ThemeSet) {
    ThemeSet::load_defaults()
}

/// Relies on `BTreeMap::get` over the theme set's `themes` field: looks a
/// theme up by name.
#[verifier::external_body]
fn theme_named(ts: &ThemeSet, name: &str) -> (r: Option<Theme>) {
    ts.themes.get(name).cloned()
}

/// Relies on `syntect::parsing::SyntaxSet::find_syntax_by_token`:
/// resolves a language token to a syntax definition, if one is known.
#[verifier::external_body]
fn find_syntax<'a>(ss: &'a SyntaxSet, token: &str) -> (r: Option<&'a SyntaxReference>) {
    ss.find_syntax_by_token(token)
}

/// Relies on `syntect::parsing::SyntaxSet::find_syntax_plain_text`: the
/// no-highlight fallback syntax, which always exists.
#[verifier::external_body]
fn plain_syntax<'a>(ss: &'a SyntaxSet) -> (r: &'a SyntaxReference) {
    ss.find_syntax_plain_text()
}

/// Relies on `syntect::html::start_highlighted_html_snippet`: returns an
/// opening `<pre>` tag carrying the theme's background color, and that
/// background color itself.
#[verifier::external_body]
fn snippet_start(theme: &Theme) -> (r: (String, Color))
    ensures
        begins_with(r.0@, "<pre"@),
{
    syntect::html::start_highlighted_html_snippet(theme)
}

/// Relies on `syntect::easy::HighlightLines::new`: a fresh line-by-line
/// highlighter for one block.
#[verifier::external_body]
fn new_highlighter<'a>(syntax: &SyntaxReference, theme: &'a Theme) -> (r: HighlightLines<'a>) {
    HighlightLines::new(syntax, theme)
}

/// Relies on `syntect::easy::HighlightLines::highlight_line`: styles one
/// line, advancing the highlighter's internal state. A highlighting error
/// yields no regions.
#[verifier::external_body]
fn highlight_one_line<'a, 'b>(
    h: &mut HighlightLines<'a>,
    line: &'b str,
    ss: &SyntaxSet,
) -> (r: Vec<(Style, &'b str)>) {
    h.highlight_line(line, ss).unwrap_or_default()
}

/// Relies on `syntect::html::styled_line_to_highlighted_html`: renders
/// one styled line as HTML spans, emitting a background color only where
/// it differs from `bg`. A rendering error yields an empty fragment.
#[verifier::external_body]
fn styled_line_html(regions: Vec<(Style, &str)>, bg: Color) -> (r: String) {
    syntect::html::styled_line_to_highlighted_html(
        &regions[..],
        syntect::html::IncludeBackground::IfDifferent(bg),
    ).unwrap_or_default()
}

/// The lines of `s`, split after each newline; each line keeps its
/// terminating newline, and a final piece without one is kept only if it
/// is not empty.
pub open spec fn spec_lines(s: Seq<char>) -> Seq<Seq<char>>
    decreases s.len(),
{
    if s.len() == 0 {
        Seq::empty()
    } else {
        let nl = first_idx(s, '\n');
        if 0 <= nl && nl < s.len() {
            seq![s.take(nl + 1)] + spec_lines(s.skip(nl + 1))
        } else {
            seq![s]
        }
    }
}

/// Splits a block's text into lines, exactly as `spec_lines` describes.
pub fn split_lines(text: &str) -> (r: Vec<String>)
    ensures
        r.deep_view() == spec_lines(text@),
{
    let n: usize = text.unicode_len();
    let mut out: Vec<String> = Vec::new();
    let mut pos: usize = 0;
    proof {
        assert(text@.skip(0) =~= text@);
        assert(out.deep_view() =~= Seq::<Seq<char>>::empty());
    }
    while pos < n
        invariant
            pos <= n == text@.len(),
            spec_lines(text@) == out.deep_view() + spec_lines(text@.skip(pos as int)),
        decreases n - pos,
    {
        let ghost rest = text@.skip(pos as int);
        let nl: usize = scan_char(text, pos, '\n');
        proof {
            assert forall|k: int| 0 <= k < rest.len() implies rest[k] == text@[pos + k] by {}
            if nl < n {
                lemma_first_idx_is(rest, '\n', nl - pos);
            } else {
                lemma_first_idx_is(rest, '\n', rest.len() as int);
            }
        }
        let stop: usize = if nl < n {
            nl + 1
        } else {
            n
        };
        let piece = text.substring_char(pos, stop);
        let ghost old_out = out.deep_view();
        out.push(piece.to_owned());
        proof {
            if nl < n {
                assert(piece@ =~= rest.take(nl - pos + 1));
                assert(text@.skip(stop as int) =~= rest.skip(nl - pos + 1));
                assert(spec_lines(rest) == seq![piece@] + spec_lines(text@.skip(stop as int)));
            } else {
                assert(piece@ =~= rest);
                assert(spec_lines(rest) == seq![piece@]);
                assert(text@.skip(stop as int) =~= Seq::<char>::empty());
            }
            assert(out.deep_view() =~= old_out + seq![piece@]);
            assert(out.deep_view() + spec_lines(text@.skip(stop as int)) =~= spec_lines(text@));
        }
        pos = stop;
    }
    proof {
        assert(text@.skip(pos as int) =~= Seq::<char>::empty());
        assert(out.deep_view() =~= spec_lines(text@));
    }
    out
}

/// The concatenation of a sequence of fragments.
pub open spec fn concat_frags(frags: Seq<Seq<char>>) -> Seq<char>
    decreases frags.len(),
{
    if frags.len() == 0 {
        Seq::empty()
    } else {
        concat_frags(frags.drop_last()) + frags.last()
    }
}

/// What every rewritten code block looks like: an opening `<pre>` tag,
/// the fixed inline `<code>` container, one styled fragment per line of
/// the block's text, and the fixed closing tags.
pub open spec fn block_frag_wf(f: Seq<char>, text: Seq<char>) -> bool {
    exists|pre: Seq<char>, mids: Seq<Seq<char>>|
        {
            &&& f == pre + "<code>"@ + concat_frags(mids) + "</code></pre>\n"@
            &&& begins_with(pre, "<pre"@)
            &&& mids.len() == spec_lines(text).len()
        }
}

/// The pipeline's highlighting context: the syntax definitions and the
/// fixed color theme, loaded once and reused for every block.
pub struct Highlighter {
    syntax_set: SyntaxSet,
    theme: Theme,
}

impl Highlighter {
    /// Loads the default syntax definitions and the pipeline's fixed
    /// theme. Returns `None` only if the compiled-in theme set lacks that
    /// theme.
    pub fn try_new() -> (r: Option<Highlighter>) {
        let ss = load_syntax_set();
        let ts = load_theme_set();
        match theme_named(&ts, "base16-ocean.dark") {
            Some(theme) => Some(Highlighter { syntax_set: ss, theme }),
            None => None,
        }
    }

    /// Colors one code block: resolves the language token (falling back
    /// to plain text, so this never fails), highlights line by line, and
    /// wraps the result in the block-level and inline code containers.
    pub fn render_block(&self, token: Option<&String>, text: &str) -> (r: String)
        ensures
            block_frag_wf(r@, text@),
    {
        let syntax = match token {
            Some(t) => match find_syntax(&self.syntax_set, t.as_str()) {
                Some(s) => s,
                None => plain_syntax(&self.syntax_set),
            },
            None => plain_syntax(&self.syntax_set),
        };
        let opening = snippet_start(&self.theme);
        let mut html = opening.0;
        let bg = opening.1;
        let ghost pre = html@;
        html.append("<code>");
        let mut h = new_highlighter(syntax, &self.theme);
        let lines = split_lines(text);
        let ghost mut mids: Seq<Seq<char>> = Seq::empty();
        let mut k: usize = 0;
        while k < lines.len()
            invariant
                k <= lines@.len(),
                lines.deep_view() == spec_lines(text@),
                mids.len() == k,
                html@ == pre + "<code>"@ + concat_frags(mids),
            decreases lines@.len() - k,
        {
            let regions = highlight_one_line(&mut h, lines[k].as_str(), &self.syntax_set);
            let frag = styled_line_html(regions, bg);
            html.append(frag.as_str());
            proof {
                let grown = mids.push(frag@);
                assert(grown.drop_last() =~= mids);
                mids = grown;
            }
            k = k + 1;
        }
        html.append("</code></pre>\n");
        proof {
            assert(lines.deep_view().len() == spec_lines(text@).len());
            assert(html@ == pre + "<code>"@ + concat_frags(mids) + "</code></pre>\n"@);
        }
        html
    }
}

} // verus!
