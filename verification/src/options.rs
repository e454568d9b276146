//! Client-supplied analysis options and their translation into the engine's
//! configuration: absent fields resolve to defaults, and the signature-name
//! filters are split on commas, trimmed, and cleared of empty entries.
//!
//! An absent filter means "no restriction", which the engine distinguishes
//! from an empty list ("restrict to nothing"); the translation therefore
//! keeps `None` and never fabricates an empty filter for it.

use crate::text::{chars_range_to_string, str_to_chars};
use vstd::prelude::*;

verus! {

/// The characters `str::trim` strips: Unicode whitespace.
pub open spec fn is_space(c: char) -> bool {
    c == ' ' || c == '\t' || c == '\n' || c == '\r' || c == '\u{b}' || c == '\u{c}'
        || c == '\u{85}' || c == '\u{a0}' || c == '\u{1680}' || c == '\u{2000}' || c == '\u{2001}'
        || c == '\u{2002}' || c == '\u{2003}' || c == '\u{2004}' || c == '\u{2005}'
        || c == '\u{2006}' || c == '\u{2007}' || c == '\u{2008}' || c == '\u{2009}'
        || c == '\u{200a}' || c == '\u{2028}' || c == '\u{2029}' || c == '\u{202f}'
        || c == '\u{205f}' || c == '\u{3000}'
}

pub open spec fn trim_start(s: Seq<char>) -> Seq<char>
    decreases s.len(),
{
    if s.len() > 0 && is_space(s[0]) {
        trim_start(s.drop_first())
    } else {
        s
    }
}

pub open spec fn trim_end(s: Seq<char>) -> Seq<char>
    decreases s.len(),
{
    if s.len() > 0 && is_space(s.last()) {
        trim_end(s.drop_last())
    } else {
        s
    }
}

/// What `str::trim` leaves: the string without leading and trailing spaces.
pub open spec fn trim(s: Seq<char>) -> Seq<char> {
    trim_end(trim_start(s))
}

/// The pieces of `s` between commas, commas excluded, empty pieces kept:
/// what `str::split(',')` yields.
pub open spec fn split_commas(s: Seq<char>) -> Seq<Seq<char>>
    decreases s.len(),
{
    if s.len() == 0 {
        seq![Seq::<char>::empty()]
    } else if s[0] == ',' {
        seq![Seq::<char>::empty()] + split_commas(s.drop_first())
    } else {
        let rest = split_commas(s.drop_first());
        seq![seq![s[0]] + rest[0]] + rest.drop_first()
    }
}

/// Trims every piece and drops the pieces that are left empty.
pub open spec fn clean_pieces(ps: Seq<Seq<char>>) -> Seq<Seq<char>>
    decreases ps.len(),
{
    if ps.len() == 0 {
        Seq::empty()
    } else {
        (if trim(ps[0]).len() > 0 {
            seq![trim(ps[0])]
        } else {
            Seq::<Seq<char>>::empty()
        }) + clean_pieces(ps.drop_first())
    }
}

/// A comma-separated filter as the engine receives it: split on commas, each
/// piece trimmed of surrounding whitespace, empty pieces dropped.
pub open spec fn filter_tokens(s: Seq<char>) -> Seq<Seq<char>> {
    clean_pieces(split_commas(s))
}

proof fn lemma_split_no_comma(s: Seq<char>)
    requires
        forall|i: int| 0 <= i < s.len() ==> s[i] != ',',
    ensures
        split_commas(s) == seq![s],
    decreases s.len(),
{
    if s.len() == 0 {
        assert(split_commas(s) =~~= seq![s]);
    } else {
        lemma_split_no_comma(s.drop_first());
        let rest = split_commas(s.drop_first());
        assert(rest == seq![s.drop_first()]);
        assert(seq![s[0]] + rest[0] =~= s);
        assert(rest.drop_first() =~= Seq::<Seq<char>>::empty());
        assert(split_commas(s) =~= seq![s]);
    }
}

proof fn lemma_split_at_comma(p: Seq<char>, rest: Seq<char>)
    requires
        forall|i: int| 0 <= i < p.len() ==> p[i] != ',',
    ensures
        split_commas(p + seq![','] + rest) == seq![p] + split_commas(rest),
    decreases p.len(),
{
    let s = p + seq![','] + rest;
    if p.len() == 0 {
        assert(s[0] == ',');
        assert(s.drop_first() =~= rest);
        assert(p =~= Seq::<char>::empty());
        assert(split_commas(s) =~~= seq![p] + split_commas(rest));
    } else {
        assert(s[0] == p[0]);
        assert(s[0] != ',');
        assert(s.drop_first() =~= p.drop_first() + seq![','] + rest);
        lemma_split_at_comma(p.drop_first(), rest);
        let r = split_commas(s.drop_first());
        assert(r == seq![p.drop_first()] + split_commas(rest));
        assert(r[0] == p.drop_first());
        assert(seq![s[0]] + r[0] =~= p);
        assert(r.drop_first() =~= split_commas(rest));
        assert(split_commas(s) =~= seq![p] + split_commas(rest));
    }
}

proof fn lemma_clean_concat(a: Seq<Seq<char>>, b: Seq<Seq<char>>)
    ensures
        clean_pieces(a + b) == clean_pieces(a) + clean_pieces(b),
    decreases a.len(),
{
    if a.len() == 0 {
        assert(a + b =~= b);
        assert(clean_pieces(a) =~= Seq::<Seq<char>>::empty());
        assert(clean_pieces(a) + clean_pieces(b) =~= clean_pieces(b));
    } else {
        assert((a + b)[0] == a[0]);
        assert((a + b).drop_first() =~= a.drop_first() + b);
        lemma_clean_concat(a.drop_first(), b);
        assert(clean_pieces(a + b) =~= clean_pieces(a) + clean_pieces(b));
    }
}

proof fn lemma_trim_start_range(s: Seq<char>, k: int)
    requires
        0 <= k <= s.len(),
        forall|j: int| 0 <= j < k ==> is_space(#[trigger] s[j]),
    ensures
        trim_start(s) == trim_start(s.subrange(k, s.len() as int)),
    decreases k,
{
    if k == 0 {
        assert(s.subrange(0, s.len() as int) =~= s);
    } else {
        assert(is_space(s[0]));
        assert(trim_start(s) == trim_start(s.drop_first()));
        lemma_trim_start_range(s.drop_first(), k - 1);
        assert(s.drop_first().subrange(k - 1, s.drop_first().len() as int) =~= s.subrange(
            k,
            s.len() as int,
        ));
    }
}

proof fn lemma_trim_end_range(s: Seq<char>, k: int)
    requires
        0 <= k <= s.len(),
        forall|j: int| k <= j < s.len() ==> is_space(#[trigger] s[j]),
    ensures
        trim_end(s) == trim_end(s.subrange(0, k)),
    decreases s.len() - k,
{
    if k == s.len() {
        assert(s.subrange(0, k) =~= s);
    } else {
        assert(is_space(s.last()));
        assert(trim_end(s) == trim_end(s.drop_last()));
        lemma_trim_end_range(s.drop_last(), k);
        assert(s.drop_last().subrange(0, k) =~= s.subrange(0, k));
    }
}

/// Whether the engine's filters treat this character as removable padding.
pub fn is_space_char(c: char) -> (r: bool)
    ensures
        r == is_space(c),
{
    c == ' ' || c == '\t' || c == '\n' || c == '\r' || c == '\u{b}' || c == '\u{c}'
        || c == '\u{85}' || c == '\u{a0}' || c == '\u{1680}' || c == '\u{2000}' || c == '\u{2001}'
        || c == '\u{2002}' || c == '\u{2003}' || c == '\u{2004}' || c == '\u{2005}'
        || c == '\u{2006}' || c == '\u{2007}' || c == '\u{2008}' || c == '\u{2009}'
        || c == '\u{200a}' || c == '\u{2028}' || c == '\u{2029}' || c == '\u{202f}'
        || c == '\u{205f}' || c == '\u{3000}'
}

/// Splits a comma-separated filter into its signature names: pieces between
/// commas, trimmed, empty ones dropped.
pub fn parse_filter(s: &str) -> (v: Vec<String>)
    ensures
        v.deep_view() == filter_tokens(s@),
{
    let chars = str_to_chars(s);
    let n = chars.len();
    let mut out: Vec<String> = Vec::new();
    let mut start: usize = 0;
    proof {
        assert(chars@.subrange(0, n as int) =~= s@);
        assert(out.deep_view() =~= Seq::<Seq<char>>::empty());
        assert(out.deep_view() + clean_pieces(split_commas(s@)) =~~= filter_tokens(s@));
    }
    loop
        invariant_except_break
            filter_tokens(s@) == out.deep_view() + clean_pieces(
                split_commas(chars@.subrange(start as int, n as int)),
            ),
        invariant
            0 <= start <= n,
            n == chars@.len(),
            chars@ == s@,
        ensures
            out.deep_view() == filter_tokens(s@),
        decreases n - start,
    {
        let ghost piece_src = chars@.subrange(start as int, n as int);
        let mut i = start;
        while i < n && chars[i] != ','
            invariant
                start <= i <= n,
                n == chars@.len(),
                forall|j: int| start <= j < i ==> chars@[j] != ',',
            decreases n - i,
        {
            i = i + 1;
        }
        let ghost piece = chars@.subrange(start as int, i as int);
        let mut lo = start;
        while lo < i && is_space_char(chars[lo])
            invariant
                start <= lo <= i <= n,
                n == chars@.len(),
                forall|j: int| start <= j < lo ==> is_space(#[trigger] chars@[j]),
            decreases i - lo,
        {
            lo = lo + 1;
        }
        let mut hi = i;
        while hi > lo && is_space_char(chars[hi - 1])
            invariant
                lo <= hi <= i <= n,
                n == chars@.len(),
                forall|j: int| hi <= j < i ==> is_space(#[trigger] chars@[j]),
            decreases hi - lo,
        {
            hi = hi - 1;
        }
        proof {
            let trimmed_start = chars@.subrange(lo as int, i as int);
            lemma_trim_start_range(piece, lo - start);
            assert(piece.subrange(lo - start, piece.len() as int) =~= trimmed_start);
            assert(trim_start(trimmed_start) == trimmed_start);
            assert(trim_start(piece) == trimmed_start);
            lemma_trim_end_range(trimmed_start, hi - lo);
            assert(trimmed_start.subrange(0, hi - lo) =~= chars@.subrange(lo as int, hi as int));
            assert(trim_end(chars@.subrange(lo as int, hi as int)) == chars@.subrange(
                lo as int,
                hi as int,
            ));
            assert(trim(piece) == chars@.subrange(lo as int, hi as int));
        }
        let ghost prev_deep = out.deep_view();
        if lo < hi {
            let token = chars_range_to_string(&chars, lo, hi);
            out.push(token);
            proof {
                assert(out.deep_view() =~~= prev_deep + seq![trim(piece)]);
            }
        } else {
            proof {
                assert(chars@.subrange(lo as int, hi as int) =~= Seq::<char>::empty());
                assert(out.deep_view() =~~= prev_deep);
            }
        }
        proof {
            let ps = seq![piece];
            assert(ps.len() == 1);
            assert(ps[0] == piece);
            assert(ps.drop_first() =~= Seq::<Seq<char>>::empty());
            assert(clean_pieces(Seq::<Seq<char>>::empty()) == Seq::<Seq<char>>::empty());
            assert(clean_pieces(ps) == (if trim(piece).len() > 0 {
                seq![trim(piece)]
            } else {
                Seq::<Seq<char>>::empty()
            }) + clean_pieces(ps.drop_first()));
            assert(clean_pieces(ps) =~~= (if trim(piece).len() > 0 {
                seq![trim(piece)]
            } else {
                Seq::<Seq<char>>::empty()
            }));
            assert(out.deep_view() =~~= prev_deep + clean_pieces(seq![piece]));
        }
        if i < n {
            proof {
                let rest = chars@.subrange(i + 1, n as int);
                assert(chars@[i as int] == ',');
                assert(piece_src =~= piece + seq![','] + rest);
                lemma_split_at_comma(piece, rest);
                assert(split_commas(piece_src) == seq![piece] + split_commas(rest));
                lemma_clean_concat(seq![piece], split_commas(rest));
                assert(prev_deep + (clean_pieces(seq![piece]) + clean_pieces(split_commas(rest)))
                    =~~= (prev_deep + clean_pieces(seq![piece])) + clean_pieces(
                    split_commas(rest),
                ));
                assert(filter_tokens(s@) == out.deep_view() + clean_pieces(split_commas(rest)));
            }
            start = i + 1;
        } else {
            proof {
                assert(piece_src =~= piece);
                lemma_split_no_comma(piece);
                assert(split_commas(piece_src) == seq![piece]);
                assert(prev_deep + clean_pieces(seq![piece]) =~~= out.deep_view());
                assert(out.deep_view() =~~= filter_tokens(s@));
            }
            break ;
        }
    }
    out
}

/// The client's analysis options, every wire field resolved.  `verbose` and
/// `quiet` are accepted but have no effect on the engine call (a documented
/// no-op); `threads` is advisory and ignored by an engine without a threading
/// knob; `matryoshka` asks for recursive extraction, which the engine build
/// in use performs single-pass.
pub struct AnalyzeOptions {
    pub extract: bool,
    pub carve: bool,
    pub entropy: bool,
    pub matryoshka: bool,
    pub filter_in: Option<String>,
    pub filter_out: Option<String>,
    pub threads: Option<usize>,
    pub directory: Option<String>,
    pub verbose: bool,
    pub quiet: bool,
}

impl Default for AnalyzeOptions {
    /// All-default options: every switch off, no filters, no thread count,
    /// an engine-chosen output directory.
    fn default() -> (d: Self)
        ensures
            !d.extract && !d.carve && !d.entropy && !d.matryoshka && !d.verbose && !d.quiet,
            d.filter_in is None && d.filter_out is None,
            d.threads is None && d.directory is None,
    {
        AnalyzeOptions {
            extract: false,
            carve: false,
            entropy: false,
            matryoshka: false,
            filter_in: None,
            filter_out: None,
            threads: None,
            directory: None,
            verbose: false,
            quiet: false,
        }
    }
}

/// The options exactly as the wire carries them: every field may be absent.
pub struct RawOptions {
    pub extract: Option<bool>,
    pub carve: Option<bool>,
    pub entropy: Option<bool>,
    pub matryoshka: Option<bool>,
    pub filter_in: Option<String>,
    pub filter_out: Option<String>,
    pub threads: Option<usize>,
    pub directory: Option<String>,
    pub verbose: Option<bool>,
    pub quiet: Option<bool>,
}

/// Resolves a decoded option blob to full options: an absent blob (the part
/// missing, or its JSON unparseable) and any absent field fall back to the
/// defaults.
pub fn resolve_options(raw: Option<RawOptions>) -> (o: AnalyzeOptions)
    ensures
        match raw {
            Some(r) => {
                &&& o.extract == (r.extract == Some(true))
                &&& o.carve == (r.carve == Some(true))
                &&& o.entropy == (r.entropy == Some(true))
                &&& o.matryoshka == (r.matryoshka == Some(true))
                &&& o.verbose == (r.verbose == Some(true))
                &&& o.quiet == (r.quiet == Some(true))
                &&& o.filter_in == r.filter_in
                &&& o.filter_out == r.filter_out
                &&& o.threads == r.threads
                &&& o.directory == r.directory
            },
            None => {
                &&& !o.extract && !o.carve && !o.entropy && !o.matryoshka && !o.verbose
                    && !o.quiet
                &&& o.filter_in is None && o.filter_out is None
                &&& o.threads is None && o.directory is None
            },
        },
{
    match raw {
        None => AnalyzeOptions::default(),
        Some(r) => AnalyzeOptions {
            extract: r.extract.unwrap_or(false),
            carve: r.carve.unwrap_or(false),
            entropy: r.entropy.unwrap_or(false),
            matryoshka: r.matryoshka.unwrap_or(false),
            filter_in: r.filter_in,
            filter_out: r.filter_out,
            threads: r.threads,
            directory: r.directory,
            verbose: r.verbose.unwrap_or(false),
            quiet: r.quiet.unwrap_or(false),
        },
    }
}

/// What the engine is configured with, filters already split into names.
pub struct EngineConfig {
    pub target_name: Option<String>,
    pub directory: Option<String>,
    pub filter_in: Option<Vec<String>>,
    pub filter_out: Option<Vec<String>>,
    pub do_extract: bool,
    pub recursive: bool,
    pub threads: Option<usize>,
}

/// A comma-separated filter turned into engine filter names; absence stays
/// absence ("no restriction"), never an empty list ("restrict to nothing").
pub open spec fn filters_of(o: Option<Seq<char>>) -> Option<Seq<Seq<char>>> {
    match o {
        Some(s) => Some(filter_tokens(s)),
        None => None,
    }
}

pub fn clone_opt_string(s: &Option<String>) -> (r: Option<String>)
    ensures
        r == *s,
{
    match s {
        Some(x) => Some(x.clone()),
        None => None,
    }
}

/// Translates resolved options (plus the upload's declared filename) into the
/// engine configuration: filters split, trimmed and cleared of empty names,
/// the output directory and thread count passed through, extraction and
/// recursion as requested.
pub fn translate(opts: &AnalyzeOptions, filename: Option<String>) -> (c: EngineConfig)
    ensures
        c.target_name == filename,
        c.directory == opts.directory,
        c.filter_in.deep_view() == filters_of(opts.filter_in.deep_view()),
        c.filter_out.deep_view() == filters_of(opts.filter_out.deep_view()),
        c.do_extract == opts.extract,
        c.recursive == opts.matryoshka,
        c.threads == opts.threads,
{
    let filter_in = match &opts.filter_in {
        Some(s) => Some(parse_filter(s.as_str())),
        None => None,
    };
    let filter_out = match &opts.filter_out {
        Some(s) => Some(parse_filter(s.as_str())),
        None => None,
    };
    EngineConfig {
        target_name: filename,
        directory: clone_opt_string(&opts.directory),
        filter_in,
        filter_out,
        do_extract: opts.extract,
        recursive: opts.matryoshka,
        threads: opts.threads,
    }
}

} // verus!
