//! The message-converter language: a list of sections that declare union
//! message types (`Unions: [ In = A, B; ];`), adapters between message types
//! (`Adapters: [ T from S via V; ];`) and decoders that turn any of several
//! wire types into one actor input type
//! (`Decoders: [ d can decode A, B to In; ];`).
//!
//! A text is read as tokens; the tokens are parsed into the three lists. The
//! grammar is given by how a list of sections is written out as tokens
//! (`doc_render`): parsing succeeds exactly on such writings, and gives back
//! the sections' declarations in order.
use vstd::prelude::*;

verus! {

/// A token of the language.
#[derive(Debug, Clone)]
pub enum Tok {
    Ident(String),
    /// `:`
    Colon,
    /// `=`
    Eq,
    /// `,`
    Comma,
    /// `;`
    Semi,
    /// `[`
    Open,
    /// `]`
    Close,
}

/// A token as the grammar sees it.
pub enum TokV {
    Ident(Seq<char>),
    Colon,
    Eq,
    Comma,
    Semi,
    Open,
    Close,
}

impl View for Tok {
    type V = TokV;

    open spec fn view(&self) -> TokV {
        match self {
            Tok::Ident(s) => TokV::Ident(s@),
            Tok::Colon => TokV::Colon,
            Tok::Eq => TokV::Eq,
            Tok::Comma => TokV::Comma,
            Tok::Semi => TokV::Semi,
            Tok::Open => TokV::Open,
            Tok::Close => TokV::Close,
        }
    }
}

pub open spec fn toks_view(ts: Seq<Tok>) -> Seq<TokV> {
    ts.map_values(|t: Tok| t@)
}

/// The words that cannot be names.
pub open spec fn is_keyword(s: Seq<char>) -> bool {
    ||| s == "_"@
    ||| s == "abstract"@ ||| s == "as"@ ||| s == "async"@ ||| s == "await"@
    ||| s == "become"@ ||| s == "box"@ ||| s == "break"@ ||| s == "const"@
    ||| s == "continue"@ ||| s == "crate"@ ||| s == "do"@ ||| s == "dyn"@
    ||| s == "else"@ ||| s == "enum"@ ||| s == "extern"@ ||| s == "false"@
    ||| s == "final"@ ||| s == "fn"@ ||| s == "for"@ ||| s == "if"@
    ||| s == "impl"@ ||| s == "in"@ ||| s == "let"@ ||| s == "loop"@
    ||| s == "macro"@ ||| s == "match"@ ||| s == "mod"@ ||| s == "move"@
    ||| s == "mut"@ ||| s == "override"@ ||| s == "priv"@ ||| s == "pub"@
    ||| s == "ref"@ ||| s == "return"@ ||| s == "Self"@ ||| s == "self"@
    ||| s == "static"@ ||| s == "struct"@ ||| s == "super"@ ||| s == "trait"@
    ||| s == "true"@ ||| s == "try"@ ||| s == "type"@ ||| s == "typeof"@
    ||| s == "unsafe"@ ||| s == "unsized"@ ||| s == "use"@ ||| s == "virtual"@
    ||| s == "where"@ ||| s == "while"@ ||| s == "yield"@
}

/// `name = V1, V2, ...;`: a message type that is one of the variants.
pub struct UnionView {
    pub name: Seq<char>,
    pub variants: Seq<Seq<char>>,
}

/// `target from source via via;`: conversions both ways through `via`.
pub struct AdapterView {
    pub target: Seq<char>,
    pub source: Seq<char>,
    pub via: Seq<char>,
}

/// `decoder_name can decode I1, I2, ... to output;`.
pub struct DecoderView {
    pub decoder_name: Seq<char>,
    pub inputs: Seq<Seq<char>>,
    pub output: Seq<char>,
}

/// One section of a text.
pub enum SectionView {
    Unions(Seq<UnionView>),
    Adapters(Seq<AdapterView>),
    Decoders(Seq<DecoderView>),
}

/// All declarations of a text, each kind in order of appearance.
pub struct ConvertersView {
    pub unions: Seq<UnionView>,
    pub adapters: Seq<AdapterView>,
    pub decoders: Seq<DecoderView>,
}

/// A non-empty comma-separated list of names.
pub open spec fn names_render(vs: Seq<Seq<char>>) -> Seq<TokV>
    decreases vs.len(),
{
    if vs.len() == 0 {
        Seq::empty()
    } else if vs.len() == 1 {
        seq![TokV::Ident(vs[0])]
    } else {
        seq![TokV::Ident(vs[0]), TokV::Comma] + names_render(vs.drop_first())
    }
}

pub open spec fn union_render(u: UnionView) -> Seq<TokV> {
    seq![TokV::Ident(u.name), TokV::Eq] + names_render(u.variants) + seq![TokV::Semi]
}

pub open spec fn adapter_render(a: AdapterView) -> Seq<TokV> {
    seq![
        TokV::Ident(a.target),
        TokV::Ident("from"@),
        TokV::Ident(a.source),
        TokV::Ident("via"@),
        TokV::Ident(a.via),
        TokV::Semi,
    ]
}

pub open spec fn decoder_render(d: DecoderView) -> Seq<TokV> {
    seq![TokV::Ident(d.decoder_name), TokV::Ident("can"@), TokV::Ident("decode"@)]
        + names_render(d.inputs) + seq![TokV::Ident("to"@), TokV::Ident(d.output), TokV::Semi]
}

pub open spec fn unions_render(us: Seq<UnionView>) -> Seq<TokV>
    decreases us.len(),
{
    if us.len() == 0 {
        Seq::empty()
    } else {
        union_render(us[0]) + unions_render(us.drop_first())
    }
}

pub open spec fn adapters_render(xs: Seq<AdapterView>) -> Seq<TokV>
    decreases xs.len(),
{
    if xs.len() == 0 {
        Seq::empty()
    } else {
        adapter_render(xs[0]) + adapters_render(xs.drop_first())
    }
}

pub open spec fn decoders_render(xs: Seq<DecoderView>) -> Seq<TokV>
    decreases xs.len(),
{
    if xs.len() == 0 {
        Seq::empty()
    } else {
        decoder_render(xs[0]) + decoders_render(xs.drop_first())
    }
}

/// `Kind: [ entries ];`
pub open spec fn section_render(s: SectionView) -> Seq<TokV> {
    match s {
        SectionView::Unions(us) => seq![TokV::Ident("Unions"@), TokV::Colon, TokV::Open]
            + unions_render(us) + seq![TokV::Close, TokV::Semi],
        SectionView::Adapters(xs) => seq![TokV::Ident("Adapters"@), TokV::Colon, TokV::Open]
            + adapters_render(xs) + seq![TokV::Close, TokV::Semi],
        SectionView::Decoders(xs) => seq![TokV::Ident("Decoders"@), TokV::Colon, TokV::Open]
            + decoders_render(xs) + seq![TokV::Close, TokV::Semi],
    }
}

/// The tokens of a whole text.
pub open spec fn doc_render(d: Seq<SectionView>) -> Seq<TokV>
    decreases d.len(),
{
    if d.len() == 0 {
        Seq::empty()
    } else {
        section_render(d[0]) + doc_render(d.drop_first())
    }
}

pub open spec fn valid_names(vs: Seq<Seq<char>>) -> bool {
    vs.len() > 0 && forall|k: int| 0 <= k < vs.len() ==> !is_keyword(#[trigger] vs[k])
}

pub open spec fn valid_union(u: UnionView) -> bool {
    !is_keyword(u.name) && valid_names(u.variants)
}

pub open spec fn valid_adapter(a: AdapterView) -> bool {
    !is_keyword(a.target) && !is_keyword(a.source) && !is_keyword(a.via)
}

pub open spec fn valid_decoder(d: DecoderView) -> bool {
    !is_keyword(d.decoder_name) && valid_names(d.inputs) && !is_keyword(d.output)
}

pub open spec fn valid_section(s: SectionView) -> bool {
    match s {
        SectionView::Unions(us) => forall|k: int| 0 <= k < us.len() ==> valid_union(#[trigger] us[k]),
        SectionView::Adapters(xs) => forall|k: int|
            0 <= k < xs.len() ==> valid_adapter(#[trigger] xs[k]),
        SectionView::Decoders(xs) => forall|k: int|
            0 <= k < xs.len() ==> valid_decoder(#[trigger] xs[k]),
    }
}

/// Every declaration names things by names that are not keywords, and every
/// list of variants or inputs is non-empty.
pub open spec fn valid_doc(d: Seq<SectionView>) -> bool {
    forall|k: int| 0 <= k < d.len() ==> valid_section(#[trigger] d[k])
}

pub open spec fn section_unions(s: SectionView) -> Seq<UnionView> {
    match s {
        SectionView::Unions(us) => us,
        _ => Seq::empty(),
    }
}

pub open spec fn section_adapters(s: SectionView) -> Seq<AdapterView> {
    match s {
        SectionView::Adapters(xs) => xs,
        _ => Seq::empty(),
    }
}

pub open spec fn section_decoders(s: SectionView) -> Seq<DecoderView> {
    match s {
        SectionView::Decoders(xs) => xs,
        _ => Seq::empty(),
    }
}

/// The declarations of a list of sections, each kind in order.
pub open spec fn flatten(d: Seq<SectionView>) -> ConvertersView
    decreases d.len(),
{
    if d.len() == 0 {
        ConvertersView { unions: Seq::empty(), adapters: Seq::empty(), decoders: Seq::empty() }
    } else {
        let rest = flatten(d.drop_first());
        ConvertersView {
            unions: section_unions(d[0]) + rest.unions,
            adapters: section_adapters(d[0]) + rest.adapters,
            decoders: section_decoders(d[0]) + rest.decoders,
        }
    }
}

/// What went wrong, at a token position (or a character position, for
/// `UnexpectedChar`).
#[derive(Debug, Clone, Copy, PartialEq, Eq, Structural)]
pub enum ParseErrorKind {
    /// A section must start with its kind's name.
    ExpectedSection,
    /// The kind is none of `Unions`, `Adapters`, `Decoders`.
    UnknownSection,
    ExpectedColon,
    ExpectedOpen,
    /// A name (an identifier that is not a keyword) was expected.
    ExpectedIdent,
    ExpectedEq,
    ExpectedSemi,
    ExpectedFrom,
    ExpectedVia,
    ExpectedCan,
    ExpectedDecode,
    ExpectedTo,
    /// A character that starts no token.
    UnexpectedChar,
}

#[derive(Debug, Clone, Copy, PartialEq, Eq, Structural)]
pub struct ParseError {
    pub pos: usize,
    pub kind: ParseErrorKind,
}

pub open spec fn tok_at(ts: Seq<TokV>, i: int) -> Option<TokV> {
    if 0 <= i < ts.len() {
        Some(ts[i])
    } else {
        None
    }
}

/// The name at `i`, if the token there is an identifier that is no keyword.
pub open spec fn name_at(ts: Seq<TokV>, i: int) -> Option<Seq<char>> {
    match tok_at(ts, i) {
        Some(TokV::Ident(s)) => if !is_keyword(s) {
            Some(s)
        } else {
            None
        },
        _ => None,
    }
}

/// Reading a name that must be the word `w`.
pub open spec fn word_error(ts: Seq<TokV>, i: int, w: Seq<char>, k: ParseErrorKind) -> Option<
    (int, ParseErrorKind),
> {
    match name_at(ts, i) {
        None => Some((i, ParseErrorKind::ExpectedIdent)),
        Some(s) => if s == w {
            None
        } else {
            Some((i, k))
        },
    }
}

/// A non-empty comma-separated list of names starting at `i`, and where it
/// ends.
pub open spec fn spec_names(ts: Seq<TokV>, i: int) -> Result<(Seq<Seq<char>>, int), (int, ParseErrorKind)>
    decreases ts.len() - i,
{
    match name_at(ts, i) {
        None => Err((i, ParseErrorKind::ExpectedIdent)),
        Some(n) => if tok_at(ts, i + 1) == Some(TokV::Comma) {
            match spec_names(ts, i + 2) {
                Ok((rest, j)) => Ok((seq![n] + rest, j)),
                Err(e) => Err(e),
            }
        } else {
            Ok((seq![n], i + 1))
        },
    }
}

pub open spec fn spec_union(ts: Seq<TokV>, i: int) -> Result<(UnionView, int), (int, ParseErrorKind)> {
    match name_at(ts, i) {
        None => Err((i, ParseErrorKind::ExpectedIdent)),
        Some(name) => if tok_at(ts, i + 1) != Some(TokV::Eq) {
            Err((i + 1, ParseErrorKind::ExpectedEq))
        } else {
            match spec_names(ts, i + 2) {
                Err(e) => Err(e),
                Ok((vs, j)) => if tok_at(ts, j) != Some(TokV::Semi) {
                    Err((j, ParseErrorKind::ExpectedSemi))
                } else {
                    Ok((UnionView { name, variants: vs }, j + 1))
                },
            }
        },
    }
}

pub open spec fn spec_adapter(ts: Seq<TokV>, i: int) -> Result<(AdapterView, int), (int, ParseErrorKind)> {
    match name_at(ts, i) {
        None => Err((i, ParseErrorKind::ExpectedIdent)),
        Some(target) => match word_error(ts, i + 1, "from"@, ParseErrorKind::ExpectedFrom) {
            Some(e) => Err(e),
            None => match name_at(ts, i + 2) {
                None => Err((i + 2, ParseErrorKind::ExpectedIdent)),
                Some(source) => match word_error(ts, i + 3, "via"@, ParseErrorKind::ExpectedVia) {
                    Some(e) => Err(e),
                    None => match name_at(ts, i + 4) {
                        None => Err((i + 4, ParseErrorKind::ExpectedIdent)),
                        Some(via) => if tok_at(ts, i + 5) != Some(TokV::Semi) {
                            Err((i + 5, ParseErrorKind::ExpectedSemi))
                        } else {
                            Ok((AdapterView { target, source, via }, i + 6))
                        },
                    },
                },
            },
        },
    }
}

pub open spec fn spec_decoder(ts: Seq<TokV>, i: int) -> Result<(DecoderView, int), (int, ParseErrorKind)> {
    match name_at(ts, i) {
        None => Err((i, ParseErrorKind::ExpectedIdent)),
        Some(decoder_name) => match word_error(ts, i + 1, "can"@, ParseErrorKind::ExpectedCan) {
            Some(e) => Err(e),
            None => match word_error(ts, i + 2, "decode"@, ParseErrorKind::ExpectedDecode) {
                Some(e) => Err(e),
                None => match spec_names(ts, i + 3) {
                    Err(e) => Err(e),
                    Ok((inputs, j)) => match word_error(ts, j, "to"@, ParseErrorKind::ExpectedTo) {
                        Some(e) => Err(e),
                        None => match name_at(ts, j + 1) {
                            None => Err((j + 1, ParseErrorKind::ExpectedIdent)),
                            Some(output) => if tok_at(ts, j + 2) != Some(TokV::Semi) {
                                Err((j + 2, ParseErrorKind::ExpectedSemi))
                            } else {
                                Ok((DecoderView { decoder_name, inputs, output }, j + 3))
                            },
                        },
                    },
                },
            },
        },
    }
}

pub proof fn lemma_names_advance(ts: Seq<TokV>, i: int)
    ensures
        spec_names(ts, i) matches Ok((_, j)) ==> i < j <= ts.len(),
    decreases ts.len() - i,
{
    if name_at(ts, i) is Some && tok_at(ts, i + 1) == Some(TokV::Comma) {
        lemma_names_advance(ts, i + 2);
    }
}

pub proof fn lemma_entry_advance(ts: Seq<TokV>, i: int)
    ensures
        spec_union(ts, i) matches Ok((_, j)) ==> i < j <= ts.len(),
        spec_adapter(ts, i) matches Ok((_, j)) ==> i < j <= ts.len(),
        spec_decoder(ts, i) matches Ok((_, j)) ==> i < j <= ts.len(),
{
    lemma_names_advance(ts, i + 2);
    lemma_names_advance(ts, i + 3);
}

/// The entries of a `Unions` section from `i` to the closing bracket, and
/// where the bracket is.
pub open spec fn spec_unions(ts: Seq<TokV>, i: int) -> Result<(Seq<UnionView>, int), (int, ParseErrorKind)>
    decreases ts.len() - i,
{
    if tok_at(ts, i) == Some(TokV::Close) {
        Ok((Seq::empty(), i))
    } else {
        match spec_union(ts, i) {
            Err(e) => Err(e),
            Ok((u, j)) => {
                proof {
                    lemma_entry_advance(ts, i);
                }
                match spec_unions(ts, j) {
                    Err(e) => Err(e),
                    Ok((rest, k)) => Ok((seq![u] + rest, k)),
                }
            },
        }
    }
}

pub open spec fn spec_adapters(ts: Seq<TokV>, i: int) -> Result<(Seq<AdapterView>, int), (int, ParseErrorKind)>
    decreases ts.len() - i,
{
    if tok_at(ts, i) == Some(TokV::Close) {
        Ok((Seq::empty(), i))
    } else {
        match spec_adapter(ts, i) {
            Err(e) => Err(e),
            Ok((a, j)) => {
                proof {
                    lemma_entry_advance(ts, i);
                }
                match spec_adapters(ts, j) {
                    Err(e) => Err(e),
                    Ok((rest, k)) => Ok((seq![a] + rest, k)),
                }
            },
        }
    }
}

pub open spec fn spec_decoders(ts: Seq<TokV>, i: int) -> Result<(Seq<DecoderView>, int), (int, ParseErrorKind)>
    decreases ts.len() - i,
{
    if tok_at(ts, i) == Some(TokV::Close) {
        Ok((Seq::empty(), i))
    } else {
        match spec_decoder(ts, i) {
            Err(e) => Err(e),
            Ok((d, j)) => {
                proof {
                    lemma_entry_advance(ts, i);
                }
                match spec_decoders(ts, j) {
                    Err(e) => Err(e),
                    Ok((rest, k)) => Ok((seq![d] + rest, k)),
                }
            },
        }
    }
}

/// After a section's entries (ending at the bracket `j`), the `;`.
pub open spec fn close_section(ts: Seq<TokV>, j: int, s: SectionView) -> Result<(SectionView, int), (int, ParseErrorKind)> {
    if tok_at(ts, j + 1) != Some(TokV::Semi) {
        Err((j + 1, ParseErrorKind::ExpectedSemi))
    } else {
        Ok((s, j + 2))
    }
}

pub open spec fn spec_section(ts: Seq<TokV>, i: int) -> Result<(SectionView, int), (int, ParseErrorKind)> {
    match name_at(ts, i) {
        None => Err((i, ParseErrorKind::ExpectedSection)),
        Some(s) => if s != "Unions"@ && s != "Adapters"@ && s != "Decoders"@ {
            Err((i, ParseErrorKind::UnknownSection))
        } else if tok_at(ts, i + 1) != Some(TokV::Colon) {
            Err((i + 1, ParseErrorKind::ExpectedColon))
        } else if tok_at(ts, i + 2) != Some(TokV::Open) {
            Err((i + 2, ParseErrorKind::ExpectedOpen))
        } else if s == "Unions"@ {
            match spec_unions(ts, i + 3) {
                Err(e) => Err(e),
                Ok((us, j)) => close_section(ts, j, SectionView::Unions(us)),
            }
        } else if s == "Adapters"@ {
            match spec_adapters(ts, i + 3) {
                Err(e) => Err(e),
                Ok((xs, j)) => close_section(ts, j, SectionView::Adapters(xs)),
            }
        } else {
            match spec_decoders(ts, i + 3) {
                Err(e) => Err(e),
                Ok((xs, j)) => close_section(ts, j, SectionView::Decoders(xs)),
            }
        },
    }
}

pub proof fn lemma_unions_advance(ts: Seq<TokV>, i: int)
    ensures
        spec_unions(ts, i) matches Ok((_, j)) ==> i <= j < ts.len(),
        spec_adapters(ts, i) matches Ok((_, j)) ==> i <= j < ts.len(),
        spec_decoders(ts, i) matches Ok((_, j)) ==> i <= j < ts.len(),
    decreases ts.len() - i,
{
    lemma_entry_advance(ts, i);
    if tok_at(ts, i) != Some(TokV::Close) {
        if let Ok((_, j)) = spec_union(ts, i) {
            lemma_unions_advance(ts, j);
        }
        if let Ok((_, j)) = spec_adapter(ts, i) {
            lemma_unions_advance(ts, j);
        }
        if let Ok((_, j)) = spec_decoder(ts, i) {
            lemma_unions_advance(ts, j);
        }
    }
}

pub proof fn lemma_section_advance(ts: Seq<TokV>, i: int)
    ensures
        spec_section(ts, i) matches Ok((_, j)) ==> i < j <= ts.len(),
{
    lemma_unions_advance(ts, i + 3);
}

/// The sections from `i` to the end.
pub open spec fn spec_doc(ts: Seq<TokV>, i: int) -> Result<Seq<SectionView>, (int, ParseErrorKind)>
    decreases ts.len() - i,
{
    if i >= ts.len() {
        Ok(Seq::empty())
    } else {
        match spec_section(ts, i) {
            Err(e) => Err(e),
            Ok((s, j)) => {
                proof {
                    lemma_section_advance(ts, i);
                }
                match spec_doc(ts, j) {
                    Err(e) => Err(e),
                    Ok(rest) => Ok(seq![s] + rest),
                }
            },
        }
    }
}

/// `r` is written at `i` in `ts`.
pub open spec fn matches_at(ts: Seq<TokV>, i: int, r: Seq<TokV>) -> bool {
    0 <= i && i + r.len() <= ts.len() && ts.subrange(i, i + r.len()) == r
}

pub proof fn lemma_concat(ts: Seq<TokV>, i: int, a: Seq<TokV>, b: Seq<TokV>)
    ensures
        matches_at(ts, i, a + b) <==> (matches_at(ts, i, a) && matches_at(ts, i + a.len(), b)),
{
    if matches_at(ts, i, a + b) {
        assert(ts.subrange(i, i + a.len()) =~= a) by {
            assert forall|k: int| 0 <= k < a.len() implies ts.subrange(i, i + a.len())[k] == a[k] by {
                assert(ts.subrange(i, i + (a + b).len())[k] == (a + b)[k]);
            }
        }
        assert(ts.subrange(i + a.len(), i + a.len() + b.len()) =~= b) by {
            assert forall|k: int| 0 <= k < b.len() implies ts.subrange(
                i + a.len(),
                i + a.len() + b.len(),
            )[k] == b[k] by {
                assert(ts.subrange(i, i + (a + b).len())[a.len() + k] == (a + b)[a.len() + k]);
            }
        }
    }
    if matches_at(ts, i, a) && matches_at(ts, i + a.len(), b) {
        assert(ts.subrange(i, i + (a + b).len()) =~= a + b) by {
            assert forall|k: int| 0 <= k < (a + b).len() implies ts.subrange(i, i + (a + b).len())[k]
                == (a + b)[k] by {
                if k < a.len() {
                    assert(ts.subrange(i, i + a.len())[k] == a[k]);
                } else {
                    assert(ts.subrange(i + a.len(), i + a.len() + b.len())[k - a.len()] == b[k
                        - a.len()]);
                }
            }
        }
    }
}

pub proof fn lemma_tok(ts: Seq<TokV>, i: int, r: Seq<TokV>, k: int)
    requires
        matches_at(ts, i, r),
        0 <= k < r.len(),
    ensures
        tok_at(ts, i + k) == Some(r[k]),
{
    assert(ts.subrange(i, i + r.len())[k] == r[k]);
}

/// The words of the language are no keywords, and the three kinds of section
/// have different names.
pub proof fn lemma_reserved_words()
    ensures
        !is_keyword("from"@),
        !is_keyword("via"@),
        !is_keyword("can"@),
        !is_keyword("decode"@),
        !is_keyword("to"@),
        !is_keyword("Unions"@),
        !is_keyword("Adapters"@),
        !is_keyword("Decoders"@),
        "Unions"@ != "Adapters"@,
        "Unions"@ != "Decoders"@,
        "Adapters"@ != "Decoders"@,
{
    reveal_strlit("_");
    reveal_strlit("abstract");
    reveal_strlit("as");
    reveal_strlit("async");
    reveal_strlit("await");
    reveal_strlit("become");
    reveal_strlit("box");
    reveal_strlit("break");
    reveal_strlit("const");
    reveal_strlit("continue");
    reveal_strlit("crate");
    reveal_strlit("do");
    reveal_strlit("dyn");
    reveal_strlit("else");
    reveal_strlit("enum");
    reveal_strlit("extern");
    reveal_strlit("false");
    reveal_strlit("final");
    reveal_strlit("fn");
    reveal_strlit("for");
    reveal_strlit("if");
    reveal_strlit("impl");
    reveal_strlit("in");
    reveal_strlit("let");
    reveal_strlit("loop");
    reveal_strlit("macro");
    reveal_strlit("match");
    reveal_strlit("mod");
    reveal_strlit("move");
    reveal_strlit("mut");
    reveal_strlit("override");
    reveal_strlit("priv");
    reveal_strlit("pub");
    reveal_strlit("ref");
    reveal_strlit("return");
    reveal_strlit("Self");
    reveal_strlit("self");
    reveal_strlit("static");
    reveal_strlit("struct");
    reveal_strlit("super");
    reveal_strlit("trait");
    reveal_strlit("true");
    reveal_strlit("try");
    reveal_strlit("type");
    reveal_strlit("typeof");
    reveal_strlit("unsafe");
    reveal_strlit("unsized");
    reveal_strlit("use");
    reveal_strlit("virtual");
    reveal_strlit("where");
    reveal_strlit("while");
    reveal_strlit("yield");
    reveal_strlit("from");
    reveal_strlit("via");
    reveal_strlit("can");
    reveal_strlit("decode");
    reveal_strlit("to");
    reveal_strlit("Unions");
    reveal_strlit("Adapters");
    reveal_strlit("Decoders");
    assert("_"@ =~= seq!['_']);
    assert("abstract"@ =~= seq!['a', 'b', 's', 't', 'r', 'a', 'c', 't']);
    assert("as"@ =~= seq!['a', 's']);
    assert("async"@ =~= seq!['a', 's', 'y', 'n', 'c']);
    assert("await"@ =~= seq!['a', 'w', 'a', 'i', 't']);
    assert("become"@ =~= seq!['b', 'e', 'c', 'o', 'm', 'e']);
    assert("box"@ =~= seq!['b', 'o', 'x']);
    assert("break"@ =~= seq!['b', 'r', 'e', 'a', 'k']);
    assert("const"@ =~= seq!['c', 'o', 'n', 's', 't']);
    assert("continue"@ =~= seq!['c', 'o', 'n', 't', 'i', 'n', 'u', 'e']);
    assert("crate"@ =~= seq!['c', 'r', 'a', 't', 'e']);
    assert("do"@ =~= seq!['d', 'o']);
    assert("dyn"@ =~= seq!['d', 'y', 'n']);
    assert("else"@ =~= seq!['e', 'l', 's', 'e']);
    assert("enum"@ =~= seq!['e', 'n', 'u', 'm']);
    assert("extern"@ =~= seq!['e', 'x', 't', 'e', 'r', 'n']);
    assert("false"@ =~= seq!['f', 'a', 'l', 's', 'e']);
    assert("final"@ =~= seq!['f', 'i', 'n', 'a', 'l']);
    assert("fn"@ =~= seq!['f', 'n']);
    assert("for"@ =~= seq!['f', 'o', 'r']);
    assert("if"@ =~= seq!['i', 'f']);
    assert("impl"@ =~= seq!['i', 'm', 'p', 'l']);
    assert("in"@ =~= seq!['i', 'n']);
    assert("let"@ =~= seq!['l', 'e', 't']);
    assert("loop"@ =~= seq!['l', 'o', 'o', 'p']);
    assert("macro"@ =~= seq!['m', 'a', 'c', 'r', 'o']);
    assert("match"@ =~= seq!['m', 'a', 't', 'c', 'h']);
    assert("mod"@ =~= seq!['m', 'o', 'd']);
    assert("move"@ =~= seq!['m', 'o', 'v', 'e']);
    assert("mut"@ =~= seq!['m', 'u', 't']);
    assert("override"@ =~= seq!['o', 'v', 'e', 'r', 'r', 'i', 'd', 'e']);
    assert("priv"@ =~= seq!['p', 'r', 'i', 'v']);
    assert("pub"@ =~= seq!['p', 'u', 'b']);
    assert("ref"@ =~= seq!['r', 'e', 'f']);
    assert("return"@ =~= seq!['r', 'e', 't', 'u', 'r', 'n']);
    assert("Self"@ =~= seq!['S', 'e', 'l', 'f']);
    assert("self"@ =~= seq!['s', 'e', 'l', 'f']);
    assert("static"@ =~= seq!['s', 't', 'a', 't', 'i', 'c']);
    assert("struct"@ =~= seq!['s', 't', 'r', 'u', 'c', 't']);
    assert("super"@ =~= seq!['s', 'u', 'p', 'e', 'r']);
    assert("trait"@ =~= seq!['t', 'r', 'a', 'i', 't']);
    assert("true"@ =~= seq!['t', 'r', 'u', 'e']);
    assert("try"@ =~= seq!['t', 'r', 'y']);
    assert("type"@ =~= seq!['t', 'y', 'p', 'e']);
    assert("typeof"@ =~= seq!['t', 'y', 'p', 'e', 'o', 'f']);
    assert("unsafe"@ =~= seq!['u', 'n', 's', 'a', 'f', 'e']);
    assert("unsized"@ =~= seq!['u', 'n', 's', 'i', 'z', 'e', 'd']);
    assert("use"@ =~= seq!['u', 's', 'e']);
    assert("virtual"@ =~= seq!['v', 'i', 'r', 't', 'u', 'a', 'l']);
    assert("where"@ =~= seq!['w', 'h', 'e', 'r', 'e']);
    assert("while"@ =~= seq!['w', 'h', 'i', 'l', 'e']);
    assert("yield"@ =~= seq!['y', 'i', 'e', 'l', 'd']);
    assert("from"@ =~= seq!['f', 'r', 'o', 'm']);
    assert("via"@ =~= seq!['v', 'i', 'a']);
    assert("can"@ =~= seq!['c', 'a', 'n']);
    assert("decode"@ =~= seq!['d', 'e', 'c', 'o', 'd', 'e']);
    assert("to"@ =~= seq!['t', 'o']);
    assert("Unions"@ =~= seq!['U', 'n', 'i', 'o', 'n', 's']);
    assert("Adapters"@ =~= seq!['A', 'd', 'a', 'p', 't', 'e', 'r', 's']);
    assert("Decoders"@ =~= seq!['D', 'e', 'c', 'o', 'd', 'e', 'r', 's']);
}


proof fn lemma_names_sound(ts: Seq<TokV>, i: int)
    ensures
        spec_names(ts, i) matches Ok((vs, j)) ==> valid_names(vs) && matches_at(
            ts,
            i,
            names_render(vs),
        ) && j == i + names_render(vs).len() && tok_at(ts, j) != Some(TokV::Comma),
    decreases ts.len() - i,
{
    if let Some(n) = name_at(ts, i) {
        if tok_at(ts, i + 1) == Some(TokV::Comma) {
            lemma_names_sound(ts, i + 2);
            if let Ok((rest, j)) = spec_names(ts, i + 2) {
                let vs = seq![n] + rest;
                assert(vs.drop_first() =~= rest);
                assert(ts.subrange(i, i + 2) =~= seq![TokV::Ident(n), TokV::Comma]);
                lemma_concat(ts, i, seq![TokV::Ident(n), TokV::Comma], names_render(rest));
                assert forall|k: int| 0 <= k < vs.len() implies !is_keyword(#[trigger] vs[k]) by {
                    if k > 0 {
                        assert(vs[k] == rest[k - 1]);
                    }
                }
            }
        } else {
            assert(ts.subrange(i, i + 1) =~= seq![TokV::Ident(n)]);
        }
    }
}

proof fn lemma_names_complete(ts: Seq<TokV>, i: int, vs: Seq<Seq<char>>)
    requires
        valid_names(vs),
        matches_at(ts, i, names_render(vs)),
        tok_at(ts, i + names_render(vs).len()) != Some(TokV::Comma),
    ensures
        spec_names(ts, i) == Ok::<_, (int, ParseErrorKind)>((vs, i + names_render(vs).len())),
    decreases vs.len(),
{
    lemma_tok(ts, i, names_render(vs), 0);
    assert(!is_keyword(vs[0]));
    if vs.len() == 1 {
        assert(seq![vs[0]] =~= vs);
    } else {
        let rest = vs.drop_first();
        lemma_tok(ts, i, names_render(vs), 1);
        lemma_concat(ts, i, seq![TokV::Ident(vs[0]), TokV::Comma], names_render(rest));
        assert forall|k: int| 0 <= k < rest.len() implies !is_keyword(#[trigger] rest[k]) by {
            assert(rest[k] == vs[k + 1]);
        }
        lemma_names_complete(ts, i + 2, rest);
        assert(seq![vs[0]] + rest =~= vs);
    }
}

proof fn lemma_entry_sound(ts: Seq<TokV>, i: int)
    ensures
        spec_union(ts, i) matches Ok((u, j)) ==> valid_union(u) && matches_at(
            ts,
            i,
            union_render(u),
        ) && j == i + union_render(u).len(),
        spec_adapter(ts, i) matches Ok((a, j)) ==> valid_adapter(a) && matches_at(
            ts,
            i,
            adapter_render(a),
        ) && j == i + adapter_render(a).len(),
        spec_decoder(ts, i) matches Ok((d, j)) ==> valid_decoder(d) && matches_at(
            ts,
            i,
            decoder_render(d),
        ) && j == i + decoder_render(d).len(),
{
    lemma_names_sound(ts, i + 2);
    lemma_names_sound(ts, i + 3);
    if let Ok((u, j)) = spec_union(ts, i) {
        let a = seq![TokV::Ident(u.name), TokV::Eq];
        let nr = names_render(u.variants);
        assert(ts.subrange(i, i + 2) =~= a);
        lemma_concat(ts, i, a, nr);
        assert(ts.subrange(j - 1, j) =~= seq![TokV::Semi]);
        lemma_concat(ts, i, a + nr, seq![TokV::Semi]);
    }
    if let Ok((a, j)) = spec_adapter(ts, i) {
        assert(ts.subrange(i, i + 6) =~= adapter_render(a));
    }
    if let Ok((d, j)) = spec_decoder(ts, i) {
        let p = seq![TokV::Ident(d.decoder_name), TokV::Ident("can"@), TokV::Ident("decode"@)];
        let nr = names_render(d.inputs);
        let q = seq![TokV::Ident("to"@), TokV::Ident(d.output), TokV::Semi];
        assert(ts.subrange(i, i + 3) =~= p);
        lemma_concat(ts, i, p, nr);
        assert(ts.subrange(j - 3, j) =~= q);
        lemma_concat(ts, i, p + nr, q);
    }
}

proof fn lemma_entry_complete(ts: Seq<TokV>, i: int)
    ensures
        forall|u: UnionView|
            valid_union(u) && #[trigger] matches_at(ts, i, union_render(u)) ==> spec_union(ts, i)
                == Ok::<_, (int, ParseErrorKind)>((u, i + union_render(u).len())),
        forall|a: AdapterView|
            valid_adapter(a) && #[trigger] matches_at(ts, i, adapter_render(a)) ==> spec_adapter(
                ts,
                i,
            ) == Ok::<_, (int, ParseErrorKind)>((a, i + adapter_render(a).len())),
        forall|d: DecoderView|
            valid_decoder(d) && #[trigger] matches_at(ts, i, decoder_render(d)) ==> spec_decoder(
                ts,
                i,
            ) == Ok::<_, (int, ParseErrorKind)>((d, i + decoder_render(d).len())),
{
    lemma_reserved_words();
    assert forall|u: UnionView|
        valid_union(u) && #[trigger] matches_at(ts, i, union_render(u)) implies spec_union(ts, i)
        == Ok::<_, (int, ParseErrorKind)>((u, i + union_render(u).len())) by {
        let a = seq![TokV::Ident(u.name), TokV::Eq];
        let nr = names_render(u.variants);
        lemma_concat(ts, i, a + nr, seq![TokV::Semi]);
        lemma_concat(ts, i, a, nr);
        lemma_tok(ts, i, a, 0);
        lemma_tok(ts, i, a, 1);
        lemma_tok(ts, i + a.len() + nr.len(), seq![TokV::Semi], 0);
        lemma_names_complete(ts, i + 2, u.variants);
    }
    assert forall|a: AdapterView|
        valid_adapter(a) && #[trigger] matches_at(ts, i, adapter_render(a)) implies spec_adapter(
        ts,
        i,
    ) == Ok::<_, (int, ParseErrorKind)>((a, i + adapter_render(a).len())) by {
        let r = adapter_render(a);
        lemma_tok(ts, i, r, 0);
        lemma_tok(ts, i, r, 1);
        lemma_tok(ts, i, r, 2);
        lemma_tok(ts, i, r, 3);
        lemma_tok(ts, i, r, 4);
        lemma_tok(ts, i, r, 5);
    }
    assert forall|d: DecoderView|
        valid_decoder(d) && #[trigger] matches_at(ts, i, decoder_render(d)) implies spec_decoder(
        ts,
        i,
    ) == Ok::<_, (int, ParseErrorKind)>((d, i + decoder_render(d).len())) by {
        let p = seq![TokV::Ident(d.decoder_name), TokV::Ident("can"@), TokV::Ident("decode"@)];
        let nr = names_render(d.inputs);
        let q = seq![TokV::Ident("to"@), TokV::Ident(d.output), TokV::Semi];
        lemma_concat(ts, i, p + nr, q);
        lemma_concat(ts, i, p, nr);
        lemma_tok(ts, i, p, 0);
        lemma_tok(ts, i, p, 1);
        lemma_tok(ts, i, p, 2);
        let j = i + 3 + nr.len();
        lemma_tok(ts, j, q, 0);
        lemma_tok(ts, j, q, 1);
        lemma_tok(ts, j, q, 2);
        lemma_names_complete(ts, i + 3, d.inputs);
    }
}

/// Each entry is written starting with its name.
proof fn lemma_union_first(u: UnionView)
    ensures
        union_render(u)[0] == TokV::Ident(u.name),
{
    let p = seq![TokV::Ident(u.name), TokV::Eq];
    assert((p + names_render(u.variants))[0] == p[0]);
}

proof fn lemma_adapter_first(a: AdapterView)
    ensures
        adapter_render(a)[0] == TokV::Ident(a.target),
{
}

proof fn lemma_decoder_first(d: DecoderView)
    ensures
        decoder_render(d)[0] == TokV::Ident(d.decoder_name),
{
    let q = seq![TokV::Ident(d.decoder_name), TokV::Ident("can"@), TokV::Ident("decode"@)];
    assert((q + names_render(d.inputs))[0] == q[0]);
}

proof fn lemma_unions_sound(ts: Seq<TokV>, i: int)
    ensures
        spec_unions(ts, i) matches Ok((xs, j)) ==> (forall|k: int|
            0 <= k < xs.len() ==> valid_union(#[trigger] xs[k])) && matches_at(ts, i, unions_render(xs))
            && j == i + unions_render(xs).len() && tok_at(ts, j) == Some(TokV::Close),
    decreases ts.len() - i,
{
    if tok_at(ts, i) == Some(TokV::Close) {
        assert(ts.subrange(i, i) =~= unions_render(Seq::<UnionView>::empty()));
    } else {
        lemma_entry_sound(ts, i);
        lemma_entry_advance(ts, i);
        if let Ok((x, j)) = spec_union(ts, i) {
            lemma_unions_sound(ts, j);
            if let Ok((rest, k)) = spec_unions(ts, j) {
                let xs = seq![x] + rest;
                assert(xs.drop_first() =~= rest);
                lemma_concat(ts, i, union_render(x), unions_render(rest));
                assert forall|m: int| 0 <= m < xs.len() implies valid_union(#[trigger] xs[m]) by {
                    if m > 0 {
                        assert(xs[m] == rest[m - 1]);
                    }
                }
            }
        }
    }
}

proof fn lemma_unions_complete(ts: Seq<TokV>, i: int, xs: Seq<UnionView>)
    requires
        forall|k: int| 0 <= k < xs.len() ==> valid_union(#[trigger] xs[k]),
        matches_at(ts, i, unions_render(xs)),
        tok_at(ts, i + unions_render(xs).len()) == Some(TokV::Close),
    ensures
        spec_unions(ts, i) == Ok::<_, (int, ParseErrorKind)>((xs, i + unions_render(xs).len())),
    decreases xs.len(),
{
    if xs.len() == 0 {
        assert(xs =~= Seq::<UnionView>::empty());
    } else {
        let rest = xs.drop_first();
        lemma_concat(ts, i, union_render(xs[0]), unions_render(rest));
        lemma_tok(ts, i, union_render(xs[0]), 0);
        lemma_union_first(xs[0]);
        lemma_entry_complete(ts, i);
        assert(valid_union(xs[0]));
        assert forall|k: int| 0 <= k < rest.len() implies valid_union(#[trigger] rest[k]) by {
            assert(rest[k] == xs[k + 1]);
        }
        lemma_unions_complete(ts, i + union_render(xs[0]).len(), rest);
        assert(seq![xs[0]] + rest =~= xs);
    }
}

proof fn lemma_adapters_sound(ts: Seq<TokV>, i: int)
    ensures
        spec_adapters(ts, i) matches Ok((xs, j)) ==> (forall|k: int|
            0 <= k < xs.len() ==> valid_adapter(#[trigger] xs[k])) && matches_at(ts, i, adapters_render(xs))
            && j == i + adapters_render(xs).len() && tok_at(ts, j) == Some(TokV::Close),
    decreases ts.len() - i,
{
    if tok_at(ts, i) == Some(TokV::Close) {
        assert(ts.subrange(i, i) =~= adapters_render(Seq::<AdapterView>::empty()));
    } else {
        lemma_entry_sound(ts, i);
        lemma_entry_advance(ts, i);
        if let Ok((x, j)) = spec_adapter(ts, i) {
            lemma_adapters_sound(ts, j);
            if let Ok((rest, k)) = spec_adapters(ts, j) {
                let xs = seq![x] + rest;
                assert(xs.drop_first() =~= rest);
                lemma_concat(ts, i, adapter_render(x), adapters_render(rest));
                assert forall|m: int| 0 <= m < xs.len() implies valid_adapter(#[trigger] xs[m]) by {
                    if m > 0 {
                        assert(xs[m] == rest[m - 1]);
                    }
                }
            }
        }
    }
}

proof fn lemma_adapters_complete(ts: Seq<TokV>, i: int, xs: Seq<AdapterView>)
    requires
        forall|k: int| 0 <= k < xs.len() ==> valid_adapter(#[trigger] xs[k]),
        matches_at(ts, i, adapters_render(xs)),
        tok_at(ts, i + adapters_render(xs).len()) == Some(TokV::Close),
    ensures
        spec_adapters(ts, i) == Ok::<_, (int, ParseErrorKind)>((xs, i + adapters_render(xs).len())),
    decreases xs.len(),
{
    if xs.len() == 0 {
        assert(xs =~= Seq::<AdapterView>::empty());
    } else {
        let rest = xs.drop_first();
        lemma_concat(ts, i, adapter_render(xs[0]), adapters_render(rest));
        lemma_tok(ts, i, adapter_render(xs[0]), 0);
        lemma_adapter_first(xs[0]);
        lemma_entry_complete(ts, i);
        assert(valid_adapter(xs[0]));
        assert forall|k: int| 0 <= k < rest.len() implies valid_adapter(#[trigger] rest[k]) by {
            assert(rest[k] == xs[k + 1]);
        }
        lemma_adapters_complete(ts, i + adapter_render(xs[0]).len(), rest);
        assert(seq![xs[0]] + rest =~= xs);
    }
}

proof fn lemma_decoders_sound(ts: Seq<TokV>, i: int)
    ensures
        spec_decoders(ts, i) matches Ok((xs, j)) ==> (forall|k: int|
            0 <= k < xs.len() ==> valid_decoder(#[trigger] xs[k])) && matches_at(ts, i, decoders_render(xs))
            && j == i + decoders_render(xs).len() && tok_at(ts, j) == Some(TokV::Close),
    decreases ts.len() - i,
{
    if tok_at(ts, i) == Some(TokV::Close) {
        assert(ts.subrange(i, i) =~= decoders_render(Seq::<DecoderView>::empty()));
    } else {
        lemma_entry_sound(ts, i);
        lemma_entry_advance(ts, i);
        if let Ok((x, j)) = spec_decoder(ts, i) {
            lemma_decoders_sound(ts, j);
            if let Ok((rest, k)) = spec_decoders(ts, j) {
                let xs = seq![x] + rest;
                assert(xs.drop_first() =~= rest);
                lemma_concat(ts, i, decoder_render(x), decoders_render(rest));
                assert forall|m: int| 0 <= m < xs.len() implies valid_decoder(#[trigger] xs[m]) by {
                    if m > 0 {
                        assert(xs[m] == rest[m - 1]);
                    }
                }
            }
        }
    }
}

proof fn lemma_decoders_complete(ts: Seq<TokV>, i: int, xs: Seq<DecoderView>)
    requires
        forall|k: int| 0 <= k < xs.len() ==> valid_decoder(#[trigger] xs[k]),
        matches_at(ts, i, decoders_render(xs)),
        tok_at(ts, i + decoders_render(xs).len()) == Some(TokV::Close),
    ensures
        spec_decoders(ts, i) == Ok::<_, (int, ParseErrorKind)>((xs, i + decoders_render(xs).len())),
    decreases xs.len(),
{
    if xs.len() == 0 {
        assert(xs =~= Seq::<DecoderView>::empty());
    } else {
        let rest = xs.drop_first();
        lemma_concat(ts, i, decoder_render(xs[0]), decoders_render(rest));
        lemma_tok(ts, i, decoder_render(xs[0]), 0);
        lemma_decoder_first(xs[0]);
        lemma_entry_complete(ts, i);
        assert(valid_decoder(xs[0]));
        assert forall|k: int| 0 <= k < rest.len() implies valid_decoder(#[trigger] rest[k]) by {
            assert(rest[k] == xs[k + 1]);
        }
        lemma_decoders_complete(ts, i + decoder_render(xs[0]).len(), rest);
        assert(seq![xs[0]] + rest =~= xs);
    }
}

proof fn lemma_section_sound(ts: Seq<TokV>, i: int)
    ensures
        spec_section(ts, i) matches Ok((s, j)) ==> valid_section(s) && matches_at(
            ts,
            i,
            section_render(s),
        ) && j == i + section_render(s).len(),
{
    lemma_unions_sound(ts, i + 3);
    lemma_adapters_sound(ts, i + 3);
    lemma_decoders_sound(ts, i + 3);
    if let Ok((s, j)) = spec_section(ts, i) {
        let tail = seq![TokV::Close, TokV::Semi];
        assert(ts.subrange(j - 2, j) =~= tail);
        match s {
            SectionView::Unions(xs) => {
                let p = seq![TokV::Ident("Unions"@), TokV::Colon, TokV::Open];
                assert(ts.subrange(i, i + 3) =~= p);
                lemma_concat(ts, i, p, unions_render(xs));
                lemma_concat(ts, i, p + unions_render(xs), tail);
            },
            SectionView::Adapters(xs) => {
                let p = seq![TokV::Ident("Adapters"@), TokV::Colon, TokV::Open];
                assert(ts.subrange(i, i + 3) =~= p);
                lemma_concat(ts, i, p, adapters_render(xs));
                lemma_concat(ts, i, p + adapters_render(xs), tail);
            },
            SectionView::Decoders(xs) => {
                let p = seq![TokV::Ident("Decoders"@), TokV::Colon, TokV::Open];
                assert(ts.subrange(i, i + 3) =~= p);
                lemma_concat(ts, i, p, decoders_render(xs));
                lemma_concat(ts, i, p + decoders_render(xs), tail);
            },
        }
    }
}

proof fn lemma_section_complete(ts: Seq<TokV>, i: int, s: SectionView)
    requires
        valid_section(s),
        matches_at(ts, i, section_render(s)),
    ensures
        spec_section(ts, i) == Ok::<_, (int, ParseErrorKind)>((s, i + section_render(s).len())),
{
    lemma_reserved_words();
    let tail = seq![TokV::Close, TokV::Semi];
    match s {
        SectionView::Unions(xs) => {
            let p = seq![TokV::Ident("Unions"@), TokV::Colon, TokV::Open];
            let m = unions_render(xs);
            lemma_concat(ts, i, p + m, tail);
            lemma_concat(ts, i, p, m);
            lemma_tok(ts, i, p, 0);
            lemma_tok(ts, i, p, 1);
            lemma_tok(ts, i, p, 2);
            lemma_tok(ts, i + 3 + m.len(), tail, 0);
            lemma_tok(ts, i + 3 + m.len(), tail, 1);
            lemma_unions_complete(ts, i + 3, xs);
        },
        SectionView::Adapters(xs) => {
            let p = seq![TokV::Ident("Adapters"@), TokV::Colon, TokV::Open];
            let m = adapters_render(xs);
            lemma_concat(ts, i, p + m, tail);
            lemma_concat(ts, i, p, m);
            lemma_tok(ts, i, p, 0);
            lemma_tok(ts, i, p, 1);
            lemma_tok(ts, i, p, 2);
            lemma_tok(ts, i + 3 + m.len(), tail, 0);
            lemma_tok(ts, i + 3 + m.len(), tail, 1);
            lemma_adapters_complete(ts, i + 3, xs);
        },
        SectionView::Decoders(xs) => {
            let p = seq![TokV::Ident("Decoders"@), TokV::Colon, TokV::Open];
            let m = decoders_render(xs);
            lemma_concat(ts, i, p + m, tail);
            lemma_concat(ts, i, p, m);
            lemma_tok(ts, i, p, 0);
            lemma_tok(ts, i, p, 1);
            lemma_tok(ts, i, p, 2);
            lemma_tok(ts, i + 3 + m.len(), tail, 0);
            lemma_tok(ts, i + 3 + m.len(), tail, 1);
            lemma_decoders_complete(ts, i + 3, xs);
        },
    }
}

proof fn lemma_doc_sound(ts: Seq<TokV>, i: int)
    requires
        0 <= i <= ts.len(),
    ensures
        spec_doc(ts, i) matches Ok(d) ==> valid_doc(d) && ts.subrange(i, ts.len() as int) == doc_render(d),
    decreases ts.len() - i,
{
    if i >= ts.len() {
        assert(ts.subrange(i, ts.len() as int) =~= doc_render(Seq::<SectionView>::empty()));
    } else {
        lemma_section_sound(ts, i);
        lemma_section_advance(ts, i);
        if let Ok((s, j)) = spec_section(ts, i) {
            lemma_doc_sound(ts, j);
            if let Ok(rest) = spec_doc(ts, j) {
                let d = seq![s] + rest;
                assert(d.drop_first() =~= rest);
                assert(ts.subrange(j, ts.len() as int) == doc_render(rest));
                assert(matches_at(ts, j, doc_render(rest)));
                lemma_concat(ts, i, section_render(s), doc_render(rest));
                assert forall|m: int| 0 <= m < d.len() implies valid_section(#[trigger] d[m]) by {
                    if m > 0 {
                        assert(d[m] == rest[m - 1]);
                    }
                }
            }
        }
    }
}

proof fn lemma_doc_complete(ts: Seq<TokV>, i: int, d: Seq<SectionView>)
    requires
        valid_doc(d),
        matches_at(ts, i, doc_render(d)),
        i + doc_render(d).len() == ts.len(),
    ensures
        spec_doc(ts, i) == Ok::<_, (int, ParseErrorKind)>(d),
    decreases d.len(),
{
    if d.len() == 0 {
        assert(d =~= Seq::<SectionView>::empty());
    } else {
        let rest = d.drop_first();
        lemma_concat(ts, i, section_render(d[0]), doc_render(rest));
        assert(valid_section(d[0]));
        lemma_section_complete(ts, i, d[0]);
        assert forall|k: int| 0 <= k < rest.len() implies valid_section(#[trigger] rest[k]) by {
            assert(rest[k] == d[k + 1]);
        }
        lemma_doc_complete(ts, i + section_render(d[0]).len(), rest);
        assert(seq![d[0]] + rest =~= d);
    }
}

/// Whatever the parser accepts is the writing of a valid list of sections: the
/// sections it reads, written back as tokens, are the input.
pub proof fn law_parse_sound(ts: Seq<TokV>)
    ensures
        spec_doc(ts, 0) matches Ok(d) ==> valid_doc(d) && doc_render(d) == ts,
{
    lemma_doc_sound(ts, 0);
    assert(ts.subrange(0, ts.len() as int) =~= ts);
}

/// The parser accepts the writing of every valid list of sections, and reads
/// back exactly those sections.
pub proof fn law_parse_complete(d: Seq<SectionView>)
    requires
        valid_doc(d),
    ensures
        spec_doc(doc_render(d), 0) == Ok::<_, (int, ParseErrorKind)>(d),
{
    let ts = doc_render(d);
    assert(ts.subrange(0, ts.len() as int) =~= ts);
    lemma_doc_complete(ts, 0, d);
}

/// Declaration of a union message type.
#[derive(Debug, Clone)]
pub struct UnionDef {
    pub name: String,
    pub variants: Vec<String>,
}

/// Declaration of an adapter.
#[derive(Debug, Clone)]
pub struct AdapterDef {
    pub target: String,
    pub source: String,
    pub via: String,
}

/// Declaration of a decoder.
#[derive(Debug, Clone)]
pub struct DecoderDef {
    pub decoder_name: String,
    pub inputs: Vec<String>,
    pub output: String,
}

/// All declarations of a text.
#[derive(Debug, Clone)]
pub struct MsgConverters {
    pub unions: Vec<UnionDef>,
    pub adapters: Vec<AdapterDef>,
    pub decoders: Vec<DecoderDef>,
}

pub open spec fn strs_view(v: Seq<String>) -> Seq<Seq<char>> {
    v.map_values(|s: String| s@)
}

impl View for UnionDef {
    type V = UnionView;

    open spec fn view(&self) -> UnionView {
        UnionView { name: self.name@, variants: strs_view(self.variants@) }
    }
}

impl View for AdapterDef {
    type V = AdapterView;

    open spec fn view(&self) -> AdapterView {
        AdapterView { target: self.target@, source: self.source@, via: self.via@ }
    }
}

impl View for DecoderDef {
    type V = DecoderView;

    open spec fn view(&self) -> DecoderView {
        DecoderView {
            decoder_name: self.decoder_name@,
            inputs: strs_view(self.inputs@),
            output: self.output@,
        }
    }
}

pub open spec fn unions_view(v: Seq<UnionDef>) -> Seq<UnionView> {
    v.map_values(|u: UnionDef| u@)
}

pub open spec fn adapters_view(v: Seq<AdapterDef>) -> Seq<AdapterView> {
    v.map_values(|a: AdapterDef| a@)
}

pub open spec fn decoders_view(v: Seq<DecoderDef>) -> Seq<DecoderView> {
    v.map_values(|d: DecoderDef| d@)
}

impl View for MsgConverters {
    type V = ConvertersView;

    open spec fn view(&self) -> ConvertersView {
        ConvertersView {
            unions: unions_view(self.unions@),
            adapters: adapters_view(self.adapters@),
            decoders: decoders_view(self.decoders@),
        }
    }
}

/// Whether two texts are the same.
fn same_text(a: &str, b: &str) -> (r: bool)
    ensures
        r == (a@ == b@),
{
    let n = a.unicode_len();
    let m = b.unicode_len();
    if n != m {
        return false;
    }
    let mut k: usize = 0;
    while k < n
        invariant
            n == a@.len(),
            m == b@.len(),
            n == m,
            k <= n,
            forall|j: int| 0 <= j < k ==> a@[j] == b@[j],
        decreases n - k,
    {
        if a.get_char(k) != b.get_char(k) {
            return false;
        }
        k = k + 1;
    }
    assert(a@ =~= b@);
    true
}

/// Whether `s` is a keyword (see [`is_keyword`]).
fn is_keyword_text(s: &str) -> (r: bool)
    ensures
        r == is_keyword(s@),
{
    same_text(s, "_")
        || same_text(s, "abstract")
        || same_text(s, "as")
        || same_text(s, "async")
        || same_text(s, "await")
        || same_text(s, "become")
        || same_text(s, "box")
        || same_text(s, "break")
        || same_text(s, "const")
        || same_text(s, "continue")
        || same_text(s, "crate")
        || same_text(s, "do")
        || same_text(s, "dyn")
        || same_text(s, "else")
        || same_text(s, "enum")
        || same_text(s, "extern")
        || same_text(s, "false")
        || same_text(s, "final")
        || same_text(s, "fn")
        || same_text(s, "for")
        || same_text(s, "if")
        || same_text(s, "impl")
        || same_text(s, "in")
        || same_text(s, "let")
        || same_text(s, "loop")
        || same_text(s, "macro")
        || same_text(s, "match")
        || same_text(s, "mod")
        || same_text(s, "move")
        || same_text(s, "mut")
        || same_text(s, "override")
        || same_text(s, "priv")
        || same_text(s, "pub")
        || same_text(s, "ref")
        || same_text(s, "return")
        || same_text(s, "Self")
        || same_text(s, "self")
        || same_text(s, "static")
        || same_text(s, "struct")
        || same_text(s, "super")
        || same_text(s, "trait")
        || same_text(s, "true")
        || same_text(s, "try")
        || same_text(s, "type")
        || same_text(s, "typeof")
        || same_text(s, "unsafe")
        || same_text(s, "unsized")
        || same_text(s, "use")
        || same_text(s, "virtual")
        || same_text(s, "where")
        || same_text(s, "while")
        || same_text(s, "yield")
}


fn err<T>(pos: usize, kind: ParseErrorKind) -> (r: Result<T, ParseError>)
    ensures
        r matches Err(e) && e.pos == pos && e.kind == kind,
{
    Err(ParseError { pos, kind })
}

/// The name at `i` (see [`name_at`]).
fn read_name(toks: &Vec<Tok>, i: usize) -> (r: Option<String>)
    ensures
        match name_at(toks_view(toks@), i as int) {
            Some(s) => r matches Some(n) && n@ == s && i < toks@.len() && i < usize::MAX,
            None => r is None,
        },
{
    if i < toks.len() {
        match &toks[i] {
            Tok::Ident(s) => if !is_keyword_text(s.as_str()) {
                Some(s.clone())
            } else {
                None
            },
            _ => None,
        }
    } else {
        None
    }
}

/// A punctuation token.
#[derive(Clone, Copy, PartialEq, Eq, Structural)]
enum Punct {
    Colon,
    Eq,
    Comma,
    Semi,
    Open,
    Close,
}

spec fn punct_tok(p: Punct) -> TokV {
    match p {
        Punct::Colon => TokV::Colon,
        Punct::Eq => TokV::Eq,
        Punct::Comma => TokV::Comma,
        Punct::Semi => TokV::Semi,
        Punct::Open => TokV::Open,
        Punct::Close => TokV::Close,
    }
}

/// Whether the token at `i` is `p`.
fn punct_at(toks: &Vec<Tok>, i: usize, p: Punct) -> (r: bool)
    ensures
        r == (tok_at(toks_view(toks@), i as int) == Some(punct_tok(p))),
        r ==> i < toks@.len() && i < usize::MAX,
{
    if i < toks.len() {
        match (&toks[i], p) {
            (Tok::Colon, Punct::Colon) => true,
            (Tok::Eq, Punct::Eq) => true,
            (Tok::Comma, Punct::Comma) => true,
            (Tok::Semi, Punct::Semi) => true,
            (Tok::Open, Punct::Open) => true,
            (Tok::Close, Punct::Close) => true,
            _ => false,
        }
    } else {
        false
    }
}

/// Reads the name at `i`, which must be the word `w`.
fn expect_word(toks: &Vec<Tok>, i: usize, w: &str, kind: ParseErrorKind) -> (r: Result<(), ParseError>)
    ensures
        match word_error(toks_view(toks@), i as int, w@, kind) {
            None => r is Ok && i < toks@.len() && i < usize::MAX,
            Some((p, k)) => r matches Err(e) && e.pos == p && e.kind == k,
        },
{
    match read_name(toks, i) {
        None => err(i, ParseErrorKind::ExpectedIdent),
        Some(s) => if same_text(s.as_str(), w) {
            Ok(())
        } else {
            err(i, kind)
        },
    }
}

fn parse_names(toks: &Vec<Tok>, i: usize) -> (r: Result<(Vec<String>, usize), ParseError>)
    ensures
        match spec_names(toks_view(toks@), i as int) {
            Ok((vs, j)) => r matches Ok((v, k)) && strs_view(v@) == vs && k == j,
            Err((p, kind)) => r matches Err(e) && e.pos == p && e.kind == kind,
        },
{
    let ghost ts = toks_view(toks@);
    let mut out: Vec<String> = Vec::new();
    let mut j: usize = i;
    loop
        invariant
            ts == toks_view(toks@),
            j <= toks@.len() || j == i,
            match spec_names(ts, j as int) {
                Ok((rest, k)) => spec_names(ts, i as int) == Ok::<_, (int, ParseErrorKind)>(
                    (strs_view(out@) + rest, k),
                ),
                Err(e) => spec_names(ts, i as int) == Err::<(Seq<Seq<char>>, int), _>(e),
            },
        decreases toks@.len() + 2 - j,
    {
        match read_name(toks, j) {
            None => {
                return err(j, ParseErrorKind::ExpectedIdent);
            },
            Some(n) => {
                let ghost before = strs_view(out@);
                out.push(n);
                assert(strs_view(out@) =~= before.push(n@));
                if punct_at(toks, j + 1, Punct::Comma) {
                    proof {
                        if let Ok((rest, k)) = spec_names(ts, j + 2) {
                            assert(before + (seq![n@] + rest) =~= strs_view(out@) + rest);
                        }
                    }
                    j = j + 2;
                } else {
                    assert(before + seq![n@] =~= strs_view(out@));
                    assert(strs_view(out@) + Seq::<Seq<char>>::empty() =~= strs_view(out@));
                    return Ok((out, j + 1));
                }
            },
        }
    }
}

fn parse_union(toks: &Vec<Tok>, i: usize) -> (r: Result<(UnionDef, usize), ParseError>)
    ensures
        match spec_union(toks_view(toks@), i as int) {
            Ok((u, j)) => r matches Ok((d, k)) && d@ == u && k == j,
            Err((p, kind)) => r matches Err(e) && e.pos == p && e.kind == kind,
        },
{
    let name = match read_name(toks, i) {
        None => return err(i, ParseErrorKind::ExpectedIdent),
        Some(n) => n,
    };
    if !punct_at(toks, i + 1, Punct::Eq) {
        return err(i + 1, ParseErrorKind::ExpectedEq);
    }
    let (variants, j) = match parse_names(toks, i + 2) {
        Err(e) => return Err(e),
        Ok(p) => p,
    };
    if !punct_at(toks, j, Punct::Semi) {
        return err(j, ParseErrorKind::ExpectedSemi);
    }
    Ok((UnionDef { name, variants }, j + 1))
}

fn parse_adapter(toks: &Vec<Tok>, i: usize) -> (r: Result<(AdapterDef, usize), ParseError>)
    ensures
        match spec_adapter(toks_view(toks@), i as int) {
            Ok((a, j)) => r matches Ok((d, k)) && d@ == a && k == j,
            Err((p, kind)) => r matches Err(e) && e.pos == p && e.kind == kind,
        },
{
    let target = match read_name(toks, i) {
        None => return err(i, ParseErrorKind::ExpectedIdent),
        Some(n) => n,
    };
    match expect_word(toks, i + 1, "from", ParseErrorKind::ExpectedFrom) {
        Err(e) => return Err(e),
        Ok(()) => {},
    }
    let source = match read_name(toks, i + 2) {
        None => return err(i + 2, ParseErrorKind::ExpectedIdent),
        Some(n) => n,
    };
    match expect_word(toks, i + 3, "via", ParseErrorKind::ExpectedVia) {
        Err(e) => return Err(e),
        Ok(()) => {},
    }
    let via = match read_name(toks, i + 4) {
        None => return err(i + 4, ParseErrorKind::ExpectedIdent),
        Some(n) => n,
    };
    if !punct_at(toks, i + 5, Punct::Semi) {
        return err(i + 5, ParseErrorKind::ExpectedSemi);
    }
    Ok((AdapterDef { target, source, via }, i + 6))
}

fn parse_decoder(toks: &Vec<Tok>, i: usize) -> (r: Result<(DecoderDef, usize), ParseError>)
    ensures
        match spec_decoder(toks_view(toks@), i as int) {
            Ok((d, j)) => r matches Ok((x, k)) && x@ == d && k == j,
            Err((p, kind)) => r matches Err(e) && e.pos == p && e.kind == kind,
        },
{
    let decoder_name = match read_name(toks, i) {
        None => return err(i, ParseErrorKind::ExpectedIdent),
        Some(n) => n,
    };
    match expect_word(toks, i + 1, "can", ParseErrorKind::ExpectedCan) {
        Err(e) => return Err(e),
        Ok(()) => {},
    }
    match expect_word(toks, i + 2, "decode", ParseErrorKind::ExpectedDecode) {
        Err(e) => return Err(e),
        Ok(()) => {},
    }
    let (inputs, j) = match parse_names(toks, i + 3) {
        Err(e) => return Err(e),
        Ok(p) => p,
    };
    match expect_word(toks, j, "to", ParseErrorKind::ExpectedTo) {
        Err(e) => return Err(e),
        Ok(()) => {},
    }
    let output = match read_name(toks, j + 1) {
        None => return err(j + 1, ParseErrorKind::ExpectedIdent),
        Some(n) => n,
    };
    if !punct_at(toks, j + 2, Punct::Semi) {
        return err(j + 2, ParseErrorKind::ExpectedSemi);
    }
    Ok((DecoderDef { decoder_name, inputs, output }, j + 3))
}

fn parse_unions(toks: &Vec<Tok>, i: usize) -> (r: Result<(Vec<UnionDef>, usize), ParseError>)
    ensures
        match spec_unions(toks_view(toks@), i as int) {
            Ok((xs, j)) => r matches Ok((v, k)) && unions_view(v@) == xs && k == j,
            Err((p, kind)) => r matches Err(e) && e.pos == p && e.kind == kind,
        },
        r matches Ok((_, k)) ==> k < toks@.len() && k < usize::MAX,
{
    let ghost ts = toks_view(toks@);
    let mut out: Vec<UnionDef> = Vec::new();
    let mut j: usize = i;
    loop
        invariant
            ts == toks_view(toks@),
            match spec_unions(ts, j as int) {
                Ok((rest, k)) => spec_unions(ts, i as int) == Ok::<_, (int, ParseErrorKind)>(
                    (unions_view(out@) + rest, k),
                ),
                Err(e) => spec_unions(ts, i as int) == Err::<(Seq<UnionView>, int), _>(e),
            },
        decreases toks@.len() - j,
    {
        if punct_at(toks, j, Punct::Close) {
            assert(unions_view(out@) + Seq::<UnionView>::empty() =~= unions_view(out@));
            return Ok((out, j));
        }
        match parse_union(toks, j) {
            Err(e) => {
                return Err(e);
            },
            Ok((x, k)) => {
                proof {
                    lemma_entry_advance(ts, j as int);
                }
                let ghost before = unions_view(out@);
                let ghost xv = x@;
                out.push(x);
                assert(unions_view(out@) =~= before.push(xv));
                proof {
                    if let Ok((rest, m)) = spec_unions(ts, k as int) {
                        assert(before + (seq![xv] + rest) =~= unions_view(out@) + rest);
                    }
                }
                j = k;
            },
        }
    }
}

fn parse_adapters(toks: &Vec<Tok>, i: usize) -> (r: Result<(Vec<AdapterDef>, usize), ParseError>)
    ensures
        match spec_adapters(toks_view(toks@), i as int) {
            Ok((xs, j)) => r matches Ok((v, k)) && adapters_view(v@) == xs && k == j,
            Err((p, kind)) => r matches Err(e) && e.pos == p && e.kind == kind,
        },
        r matches Ok((_, k)) ==> k < toks@.len() && k < usize::MAX,
{
    let ghost ts = toks_view(toks@);
    let mut out: Vec<AdapterDef> = Vec::new();
    let mut j: usize = i;
    loop
        invariant
            ts == toks_view(toks@),
            match spec_adapters(ts, j as int) {
                Ok((rest, k)) => spec_adapters(ts, i as int) == Ok::<_, (int, ParseErrorKind)>(
                    (adapters_view(out@) + rest, k),
                ),
                Err(e) => spec_adapters(ts, i as int) == Err::<(Seq<AdapterView>, int), _>(e),
            },
        decreases toks@.len() - j,
    {
        if punct_at(toks, j, Punct::Close) {
            assert(adapters_view(out@) + Seq::<AdapterView>::empty() =~= adapters_view(out@));
            return Ok((out, j));
        }
        match parse_adapter(toks, j) {
            Err(e) => {
                return Err(e);
            },
            Ok((x, k)) => {
                proof {
                    lemma_entry_advance(ts, j as int);
                }
                let ghost before = adapters_view(out@);
                let ghost xv = x@;
                out.push(x);
                assert(adapters_view(out@) =~= before.push(xv));
                proof {
                    if let Ok((rest, m)) = spec_adapters(ts, k as int) {
                        assert(before + (seq![xv] + rest) =~= adapters_view(out@) + rest);
                    }
                }
                j = k;
            },
        }
    }
}

fn parse_decoders(toks: &Vec<Tok>, i: usize) -> (r: Result<(Vec<DecoderDef>, usize), ParseError>)
    ensures
        match spec_decoders(toks_view(toks@), i as int) {
            Ok((xs, j)) => r matches Ok((v, k)) && decoders_view(v@) == xs && k == j,
            Err((p, kind)) => r matches Err(e) && e.pos == p && e.kind == kind,
        },
        r matches Ok((_, k)) ==> k < toks@.len() && k < usize::MAX,
{
    let ghost ts = toks_view(toks@);
    let mut out: Vec<DecoderDef> = Vec::new();
    let mut j: usize = i;
    loop
        invariant
            ts == toks_view(toks@),
            match spec_decoders(ts, j as int) {
                Ok((rest, k)) => spec_decoders(ts, i as int) == Ok::<_, (int, ParseErrorKind)>(
                    (decoders_view(out@) + rest, k),
                ),
                Err(e) => spec_decoders(ts, i as int) == Err::<(Seq<DecoderView>, int), _>(e),
            },
        decreases toks@.len() - j,
    {
        if punct_at(toks, j, Punct::Close) {
            assert(decoders_view(out@) + Seq::<DecoderView>::empty() =~= decoders_view(out@));
            return Ok((out, j));
        }
        match parse_decoder(toks, j) {
            Err(e) => {
                return Err(e);
            },
            Ok((x, k)) => {
                proof {
                    lemma_entry_advance(ts, j as int);
                }
                let ghost before = decoders_view(out@);
                let ghost xv = x@;
                out.push(x);
                assert(decoders_view(out@) =~= before.push(xv));
                proof {
                    if let Ok((rest, m)) = spec_decoders(ts, k as int) {
                        assert(before + (seq![xv] + rest) =~= decoders_view(out@) + rest);
                    }
                }
                j = k;
            },
        }
    }
}

/// One parsed section.
enum Section {
    Unions(Vec<UnionDef>),
    Adapters(Vec<AdapterDef>),
    Decoders(Vec<DecoderDef>),
}

impl View for Section {
    type V = SectionView;

    closed spec fn view(&self) -> SectionView {
        match self {
            Section::Unions(v) => SectionView::Unions(unions_view(v@)),
            Section::Adapters(v) => SectionView::Adapters(adapters_view(v@)),
            Section::Decoders(v) => SectionView::Decoders(decoders_view(v@)),
        }
    }
}

fn parse_section(toks: &Vec<Tok>, i: usize) -> (r: Result<(Section, usize), ParseError>)
    ensures
        match spec_section(toks_view(toks@), i as int) {
            Ok((s, j)) => r matches Ok((x, k)) && x@ == s && k == j,
            Err((p, kind)) => r matches Err(e) && e.pos == p && e.kind == kind,
        },
{
    let kind = match read_name(toks, i) {
        None => return err(i, ParseErrorKind::ExpectedSection),
        Some(s) => s,
    };
    let is_unions = same_text(kind.as_str(), "Unions");
    let is_adapters = same_text(kind.as_str(), "Adapters");
    let is_decoders = same_text(kind.as_str(), "Decoders");
    if !is_unions && !is_adapters && !is_decoders {
        return err(i, ParseErrorKind::UnknownSection);
    }
    if !punct_at(toks, i + 1, Punct::Colon) {
        return err(i + 1, ParseErrorKind::ExpectedColon);
    }
    if !punct_at(toks, i + 2, Punct::Open) {
        return err(i + 2, ParseErrorKind::ExpectedOpen);
    }
    let (sec, j) = if is_unions {
        match parse_unions(toks, i + 3) {
            Err(e) => return Err(e),
            Ok((xs, j)) => (Section::Unions(xs), j),
        }
    } else if is_adapters {
        match parse_adapters(toks, i + 3) {
            Err(e) => return Err(e),
            Ok((xs, j)) => (Section::Adapters(xs), j),
        }
    } else {
        match parse_decoders(toks, i + 3) {
            Err(e) => return Err(e),
            Ok((xs, j)) => (Section::Decoders(xs), j),
        }
    };
    if !punct_at(toks, j + 1, Punct::Semi) {
        return err(j + 1, ParseErrorKind::ExpectedSemi);
    }
    Ok((sec, j + 2))
}

/// The declarations read so far, followed by those of `rest`.
pub open spec fn joined(
    unions: Seq<UnionDef>,
    adapters: Seq<AdapterDef>,
    decoders: Seq<DecoderDef>,
    rest: ConvertersView,
) -> ConvertersView {
    ConvertersView {
        unions: unions_view(unions) + rest.unions,
        adapters: adapters_view(adapters) + rest.adapters,
        decoders: decoders_view(decoders) + rest.decoders,
    }
}

impl MsgConverters {
    /// Parses a list of sections. The result is exactly that of the grammar
    /// (`spec_doc`), which accepts the writings of valid lists of sections and
    /// nothing else (see `law_parse_sound` and `law_parse_complete`).
    pub fn parse(toks: &Vec<Tok>) -> (r: Result<MsgConverters, ParseError>)
        ensures
            match spec_doc(toks_view(toks@), 0) {
                Ok(d) => r matches Ok(m) && m@ == flatten(d),
                Err((p, k)) => r matches Err(e) && e.pos == p && e.kind == k,
            },
    {
        let ghost ts = toks_view(toks@);
        let mut unions: Vec<UnionDef> = Vec::new();
        let mut adapters: Vec<AdapterDef> = Vec::new();
        let mut decoders: Vec<DecoderDef> = Vec::new();
        let mut j: usize = 0;
        proof {
            if let Ok(d) = spec_doc(ts, 0) {
                assert(joined(unions@, adapters@, decoders@, flatten(d)) =~= flatten(d)) by {
                    assert(unions_view(unions@) + flatten(d).unions =~= flatten(d).unions);
                    assert(adapters_view(adapters@) + flatten(d).adapters =~= flatten(d).adapters);
                    assert(decoders_view(decoders@) + flatten(d).decoders =~= flatten(d).decoders);
                }
            }
        }
        while j < toks.len()
            invariant
                ts == toks_view(toks@),
                j <= toks@.len(),
                match spec_doc(ts, j as int) {
                    Ok(rest) => spec_doc(ts, 0) matches Ok(d) && flatten(d) == joined(
                        unions@,
                        adapters@,
                        decoders@,
                        flatten(rest),
                    ),
                    Err(e) => spec_doc(ts, 0) == Err::<Seq<SectionView>, _>(e),
                },
            decreases toks@.len() - j,
        {
            match parse_section(toks, j) {
                Err(e) => {
                    return Err(e);
                },
                Ok((sec, k)) => {
                    proof {
                        lemma_section_advance(ts, j as int);
                    }
                    let ghost s = sec@;
                    let ghost (u0, a0, d0) = (unions@, adapters@, decoders@);
                    match sec {
                        Section::Unions(mut xs) => {
                            unions.append(&mut xs);
                        },
                        Section::Adapters(mut xs) => {
                            adapters.append(&mut xs);
                        },
                        Section::Decoders(mut xs) => {
                            decoders.append(&mut xs);
                        },
                    }
                    proof {
                        assert(unions_view(unions@) =~= unions_view(u0) + section_unions(s));
                        assert(adapters_view(adapters@) =~= adapters_view(a0) + section_adapters(s));
                        assert(decoders_view(decoders@) =~= decoders_view(d0) + section_decoders(s));
                        if let Ok(rest) = spec_doc(ts, k as int) {
                            let whole = seq![s] + rest;
                            assert(whole.drop_first() =~= rest);
                            assert(whole[0] == s);
                            let f = flatten(rest);
                            let g = flatten(whole);
                            assert(unions_view(u0) + g.unions =~= unions_view(unions@) + f.unions);
                            assert(adapters_view(a0) + g.adapters =~= adapters_view(adapters@)
                                + f.adapters);
                            assert(decoders_view(d0) + g.decoders =~= decoders_view(decoders@)
                                + f.decoders);
                        }
                    }
                    j = k;
                },
            }
        }
        proof {
            assert(joined(unions@, adapters@, decoders@, flatten(Seq::<SectionView>::empty()))
                =~= MsgConverters { unions, adapters, decoders }@);
        }
        Ok(MsgConverters { unions, adapters, decoders })
    }
}

/// Whether `c` has the Unicode property XID_Start.
pub uninterp spec fn xid_start(c: char) -> bool;

/// Whether `c` has the Unicode property XID_Continue.
pub uninterp spec fn xid_continue(c: char) -> bool;

/// `unicode_ident::is_xid_start`: whether `c` has the Unicode property
/// XID_Start (Unicode Standard Annex #31). The property is a table of the
/// Unicode standard, so the result is only named.
#[verifier::external_body]
fn is_xid_start_char(c: char) -> (r: bool)
    ensures
        r == xid_start(c),
{
    unicode_ident::is_xid_start(c)
}

/// `unicode_ident::is_xid_continue`: whether `c` has the Unicode property
/// XID_Continue (Unicode Standard Annex #31), only named as above.
#[verifier::external_body]
fn is_xid_continue_char(c: char) -> (r: bool)
    ensures
        r == xid_continue(c),
{
    unicode_ident::is_xid_continue(c)
}

/// A character that can start an identifier of Rust source text: `_`, an
/// ASCII letter, or any other character with the property XID_Start (white
/// space, which separates tokens, never does).
pub open spec fn is_ident_start(c: char) -> bool {
    ||| ('a' <= c && c <= 'z')
    ||| ('A' <= c && c <= 'Z')
    ||| c == '_'
    ||| (c > '\u{7f}' && !is_space(c) && xid_start(c))
}

/// A character that can go on an identifier: an ASCII letter, digit or `_`,
/// or any other character with the property XID_Continue (white space never
/// does).
pub open spec fn is_ident_continue(c: char) -> bool {
    ||| ('a' <= c && c <= 'z')
    ||| ('A' <= c && c <= 'Z')
    ||| c == '_'
    ||| ('0' <= c && c <= '9')
    ||| (c > '\u{7f}' && !is_space(c) && xid_continue(c))
}

/// The white space of Rust source text.
pub open spec fn is_space(c: char) -> bool {
    ||| c == ' '
    ||| c == '\t'
    ||| c == '\n'
    ||| c == '\r'
    ||| c == '\u{b}'
    ||| c == '\u{c}'
    ||| c == '\u{85}'
    ||| c == '\u{200e}'
    ||| c == '\u{200f}'
    ||| c == '\u{2028}'
    ||| c == '\u{2029}'
}

pub open spec fn punct_of(c: char) -> Option<TokV> {
    if c == ':' {
        Some(TokV::Colon)
    } else if c == '=' {
        Some(TokV::Eq)
    } else if c == ',' {
        Some(TokV::Comma)
    } else if c == ';' {
        Some(TokV::Semi)
    } else if c == '[' {
        Some(TokV::Open)
    } else if c == ']' {
        Some(TokV::Close)
    } else {
        None
    }
}

/// Where the identifier characters from `i` end.
pub open spec fn ident_end(cs: Seq<char>, i: int) -> int
    decreases cs.len() - i,
{
    if 0 <= i < cs.len() && is_ident_continue(cs[i]) {
        ident_end(cs, i + 1)
    } else {
        i
    }
}

/// Where the line that `i` is on ends.
pub open spec fn line_end(cs: Seq<char>, i: int) -> int
    decreases cs.len() - i,
{
    if 0 <= i < cs.len() && cs[i] != '\n' {
        line_end(cs, i + 1)
    } else {
        i
    }
}

pub proof fn lemma_ends(cs: Seq<char>, i: int)
    ensures
        ident_end(cs, i) >= i,
        line_end(cs, i) >= i,
        0 <= i ==> ident_end(cs, i) <= cs.len() || ident_end(cs, i) == i,
        0 <= i ==> line_end(cs, i) <= cs.len() || line_end(cs, i) == i,
        forall|k: int| i <= k < ident_end(cs, i) ==> is_ident_continue(#[trigger] cs[k]),
    decreases cs.len() - i,
{
    if 0 <= i < cs.len() {
        lemma_ends(cs, i + 1);
    }
}

/// `//` at `i` opens a comment that documents an item (`///` but not `////`,
/// or `//!`); such a comment is no white space.
pub open spec fn is_doc_comment(cs: Seq<char>, i: int) -> bool {
    ||| (i + 2 < cs.len() && cs[i + 2] == '!')
    ||| (i + 2 < cs.len() && cs[i + 2] == '/' && !(i + 3 < cs.len() && cs[i + 3] == '/'))
}

/// `/*` at `i` opens a block comment that documents an item (`/**` but not
/// `/**/` or `/***`, or `/*!`); such a comment is no white space.
pub open spec fn is_doc_block(cs: Seq<char>, i: int) -> bool {
    ||| (i + 2 < cs.len() && cs[i + 2] == '!')
    ||| (i + 2 < cs.len() && cs[i + 2] == '*' && !(i + 3 < cs.len() && (cs[i + 3] == '*' || cs[i
        + 3] == '/')))
}

/// Where a block comment ends (just after its `*/`), scanning from `j` inside
/// `depth` nested comments; `None` when it is never closed. Block comments
/// nest.
pub open spec fn block_end(cs: Seq<char>, j: int, depth: nat) -> Option<int>
    decreases cs.len() - j,
{
    if j < 0 || j + 1 >= cs.len() {
        None
    } else if cs[j] == '*' && cs[j + 1] == '/' {
        if depth <= 1 {
            Some(j + 2)
        } else {
            block_end(cs, j + 2, (depth - 1) as nat)
        }
    } else if cs[j] == '/' && cs[j + 1] == '*' {
        block_end(cs, j + 2, depth + 1)
    } else {
        block_end(cs, j + 1, depth)
    }
}

pub proof fn lemma_block_end(cs: Seq<char>, j: int, depth: nat)
    ensures
        block_end(cs, j, depth) matches Some(k) ==> j < k <= cs.len(),
    decreases cs.len() - j,
{
    if j < 0 || j + 1 >= cs.len() {
    } else if cs[j] == '*' && cs[j + 1] == '/' {
        if depth > 1 {
            lemma_block_end(cs, j + 2, (depth - 1) as nat);
        }
    } else if cs[j] == '/' && cs[j + 1] == '*' {
        lemma_block_end(cs, j + 2, depth + 1);
    } else {
        lemma_block_end(cs, j + 1, depth);
    }
}

/// The tokens of the text from character `i`, or the position of the first
/// character that starts no token: white space, `//` comments and (nested)
/// `/* */` comments separate tokens, an unclosed block comment being an error
/// at its `/`; an identifier is a letter or `_` followed by letters, digits
/// and `_`; the punctuation is `: = , ; [ ]`.
pub open spec fn spec_lex(cs: Seq<char>, i: int) -> Result<Seq<TokV>, int>
    decreases cs.len() - i,
{
    if i < 0 || i >= cs.len() {
        Ok(Seq::empty())
    } else if is_space(cs[i]) {
        spec_lex(cs, i + 1)
    } else if cs[i] == '/' && i + 1 < cs.len() && cs[i + 1] == '/' && !is_doc_comment(cs, i) {
        proof {
            lemma_ends(cs, i + 2);
        }
        spec_lex(cs, line_end(cs, i + 2))
    } else if cs[i] == '/' && i + 1 < cs.len() && cs[i + 1] == '*' && !is_doc_block(cs, i) {
        proof {
            lemma_block_end(cs, i + 2, 1);
        }
        match block_end(cs, i + 2, 1) {
            Some(k) => spec_lex(cs, k),
            None => Err(i),
        }
    } else if is_ident_start(cs[i]) {
        proof {
            lemma_ends(cs, i + 1);
        }
        let j = ident_end(cs, i + 1);
        match spec_lex(cs, j) {
            Ok(rest) => Ok(seq![TokV::Ident(cs.subrange(i, j))] + rest),
            Err(p) => Err(p),
        }
    } else {
        match punct_of(cs[i]) {
            Some(t) => match spec_lex(cs, i + 1) {
                Ok(rest) => Ok(seq![t] + rest),
                Err(p) => Err(p),
            },
            None => Err(i),
        }
    }
}

/// The characters of a text.
fn chars_of(text: &str) -> (r: Vec<char>)
    ensures
        r@ == text@,
{
    let n = text.unicode_len();
    let mut out: Vec<char> = Vec::new();
    let mut k: usize = 0;
    while k < n
        invariant
            n == text@.len(),
            k <= n,
            out@ == text@.take(k as int),
        decreases n - k,
    {
        out.push(text.get_char(k));
        k = k + 1;
        assert(out@ =~= text@.take(k as int));
    }
    assert(text@.take(n as int) =~= text@);
    out
}

fn is_space_char(c: char) -> (r: bool)
    ensures
        r == is_space(c),
{
    c == ' ' || c == '\t' || c == '\n' || c == '\r' || c == '\u{b}' || c == '\u{c}' || c
        == '\u{85}' || c == '\u{200e}' || c == '\u{200f}' || c == '\u{2028}' || c == '\u{2029}'
}

fn is_ident_start_char(c: char) -> (r: bool)
    ensures
        r == is_ident_start(c),
{
    if c <= '\u{7f}' {
        ('a' <= c && c <= 'z') || ('A' <= c && c <= 'Z') || c == '_'
    } else {
        !is_space_char(c) && is_xid_start_char(c)
    }
}

fn is_ident_continue_char(c: char) -> (r: bool)
    ensures
        r == is_ident_continue(c),
{
    if c <= '\u{7f}' {
        ('a' <= c && c <= 'z') || ('A' <= c && c <= 'Z') || c == '_' || ('0' <= c && c <= '9')
    } else {
        !is_space_char(c) && is_xid_continue_char(c)
    }
}

fn punct_tok_of(c: char) -> (r: Option<Tok>)
    ensures
        match punct_of(c) {
            Some(t) => r matches Some(x) && x@ == t,
            None => r is None,
        },
{
    if c == ':' {
        Some(Tok::Colon)
    } else if c == '=' {
        Some(Tok::Eq)
    } else if c == ',' {
        Some(Tok::Comma)
    } else if c == ';' {
        Some(Tok::Semi)
    } else if c == '[' {
        Some(Tok::Open)
    } else if c == ']' {
        Some(Tok::Close)
    } else {
        None
    }
}

/// Where the block comment whose body starts at `start` ends (see
/// [`block_end`]).
fn skip_block(cs: &Vec<char>, start: usize) -> (r: Option<usize>)
    requires
        start <= cs.len(),
    ensures
        match block_end(cs@, start as int, 1) {
            Some(k) => r == Some(k as usize),
            None => r is None,
        },
{
    let n = cs.len();
    let mut j: usize = start;
    let mut depth: usize = 1;
    while n - j >= 2
        invariant
            n == cs@.len(),
            start <= j <= n,
            1 <= depth <= j - start + 1,
            block_end(cs@, j as int, depth as nat) == block_end(cs@, start as int, 1),
        decreases n - j,
    {
        if cs[j] == '*' && cs[j + 1] == '/' {
            if depth == 1 {
                proof {
                    lemma_block_end(cs@, start as int, 1);
                }
                return Some(j + 2);
            }
            depth = depth - 1;
            j = j + 2;
        } else if cs[j] == '/' && cs[j + 1] == '*' {
            depth = depth + 1;
            j = j + 2;
        } else {
            j = j + 1;
        }
    }
    None
}

/// Reads the tokens of a text (see [`spec_lex`]); an unexpected character is
/// reported at its position among the characters.
pub fn lex(text: &str) -> (r: Result<Vec<Tok>, ParseError>)
    ensures
        match spec_lex(text@, 0) {
            Ok(ts) => r matches Ok(v) && toks_view(v@) == ts,
            Err(p) => r matches Err(e) && e.pos == p && e.kind == ParseErrorKind::UnexpectedChar,
        },
{
    let cs = chars_of(text);
    let n = cs.len();
    let mut out: Vec<Tok> = Vec::new();
    let mut i: usize = 0;
    while i < n
        invariant
            cs@ == text@,
            n == cs@.len(),
            i <= n,
            match spec_lex(cs@, i as int) {
                Ok(rest) => spec_lex(cs@, 0) == Ok::<_, int>(toks_view(out@) + rest),
                Err(p) => spec_lex(cs@, 0) == Err::<Seq<TokV>, _>(p),
            },
        decreases n - i,
    {
        let c = cs[i];
        if is_space_char(c) {
            i = i + 1;
        } else if c == '/' && i + 1 < n && cs[i + 1] == '/' && !(i + 2 < n && cs[i + 2] == '!')
            && !(i + 2 < n && cs[i + 2] == '/' && !(i + 3 < n && cs[i + 3] == '/')) {
            proof {
                lemma_ends(cs@, i + 2);
            }
            let mut j: usize = i + 2;
            while j < n && cs[j] != '\n'
                invariant
                    n == cs@.len(),
                    i + 2 <= j <= n,
                    line_end(cs@, j as int) == line_end(cs@, i + 2),
                decreases n - j,
            {
                j = j + 1;
            }
            i = j;
        } else if c == '/' && i + 1 < n && cs[i + 1] == '*' && !(i + 2 < n && cs[i + 2] == '!')
            && !(i + 2 < n && cs[i + 2] == '*' && !(i + 3 < n && (cs[i + 3] == '*' || cs[i + 3]
            == '/'))) {
            proof {
                lemma_block_end(cs@, i + 2, 1);
            }
            match skip_block(&cs, i + 2) {
                Some(k) => {
                    i = k;
                },
                None => {
                    return err(i, ParseErrorKind::UnexpectedChar);
                },
            }
        } else if is_ident_start_char(c) {
            proof {
                lemma_ends(cs@, i + 1);
            }
            let mut j: usize = i + 1;
            while j < n && is_ident_continue_char(cs[j])
                invariant
                    n == cs@.len(),
                    i + 1 <= j <= n,
                    ident_end(cs@, j as int) == ident_end(cs@, i + 1),
                decreases n - j,
            {
                j = j + 1;
            }
            let name = String::from_str(text.substring_char(i, j));
            let ghost before = toks_view(out@);
            out.push(Tok::Ident(name));
            proof {
                assert(toks_view(out@) =~= before.push(TokV::Ident(cs@.subrange(i as int, j as int))));
                if let Ok(rest) = spec_lex(cs@, j as int) {
                    assert(before + (seq![TokV::Ident(cs@.subrange(i as int, j as int))] + rest)
                        =~= toks_view(out@) + rest);
                }
            }
            i = j;
        } else {
            match punct_tok_of(c) {
                Some(t) => {
                    let ghost before = toks_view(out@);
                    let ghost tv = t@;
                    out.push(t);
                    proof {
                        assert(toks_view(out@) =~= before.push(tv));
                        if let Ok(rest) = spec_lex(cs@, i + 1) {
                            assert(before + (seq![tv] + rest) =~= toks_view(out@) + rest);
                        }
                    }
                    i = i + 1;
                },
                None => {
                    return err(i, ParseErrorKind::UnexpectedChar);
                },
            }
        }
    }
    assert(toks_view(out@) + Seq::<TokV>::empty() =~= toks_view(out@));
    Ok(out)
}

impl MsgConverters {
    /// Reads the tokens of a text and parses them (see [`lex`] and
    /// [`MsgConverters::parse`]).
    pub fn parse_text(text: &str) -> (r: Result<MsgConverters, ParseError>)
        ensures
            match spec_lex(text@, 0) {
                Err(p) => r matches Err(e) && e.pos == p && e.kind == ParseErrorKind::UnexpectedChar,
                Ok(ts) => match spec_doc(ts, 0) {
                    Ok(d) => r matches Ok(m) && m@ == flatten(d),
                    Err((p, k)) => r matches Err(e) && e.pos == p && e.kind == k,
                },
            },
    {
        let toks = lex(text)?;
        MsgConverters::parse(&toks)
    }
}

/// The characters of a token.
pub open spec fn tok_text(t: TokV) -> Seq<char> {
    match t {
        TokV::Ident(s) => s,
        TokV::Colon => seq![':'],
        TokV::Eq => seq!['='],
        TokV::Comma => seq![','],
        TokV::Semi => seq![';'],
        TokV::Open => seq!['['],
        TokV::Close => seq![']'],
    }
}

/// Tokens written out as text, each followed by a space.
pub open spec fn toks_text(ts: Seq<TokV>) -> Seq<char>
    decreases ts.len(),
{
    if ts.len() == 0 {
        Seq::empty()
    } else {
        tok_text(ts[0]) + seq![' '] + toks_text(ts.drop_first())
    }
}

/// The characters of an identifier.
pub open spec fn is_ident_text(s: Seq<char>) -> bool {
    &&& s.len() > 0
    &&& is_ident_start(s[0])
    &&& forall|k: int| 0 < k < s.len() ==> is_ident_continue(#[trigger] s[k])
}

/// Every identifier token is spelled as an identifier.
pub open spec fn well_spelled(ts: Seq<TokV>) -> bool {
    forall|i: int| 0 <= i < ts.len() ==> (#[trigger] ts[i] matches TokV::Ident(s) ==> is_ident_text(s))
}

proof fn lemma_ident_end_at(cs: Seq<char>, a: int, b: int)
    requires
        0 <= a <= b <= cs.len(),
        forall|k: int| a <= k < b ==> is_ident_continue(#[trigger] cs[k]),
        b == cs.len() || !is_ident_continue(cs[b]),
    ensures
        ident_end(cs, a) == b,
    decreases b - a,
{
    if a < b {
        lemma_ident_end_at(cs, a + 1, b);
    }
}

proof fn lemma_lex_text(cs: Seq<char>, i: int, ts: Seq<TokV>)
    requires
        well_spelled(ts),
        0 <= i,
        i + toks_text(ts).len() == cs.len(),
        cs.subrange(i, cs.len() as int) == toks_text(ts),
    ensures
        spec_lex(cs, i) == Ok::<_, int>(ts),
    decreases ts.len(),
{
    if ts.len() == 0 {
        assert(ts =~= Seq::<TokV>::empty());
    } else {
        let t = ts[0];
        let rest = ts.drop_first();
        let x = tok_text(t);
        let whole = toks_text(ts);
        assert(whole == x + seq![' '] + toks_text(rest));
        assert forall|k: int| 0 <= k < x.len() implies cs[i + k] == #[trigger] x[k] by {
            assert(cs.subrange(i, cs.len() as int)[k] == whole[k]);
        }
        assert(cs[i + x.len()] == ' ') by {
            assert(cs.subrange(i, cs.len() as int)[x.len() as int] == whole[x.len() as int]);
        }
        let j = i + x.len() + 1;
        assert(cs.subrange(j, cs.len() as int) =~= toks_text(rest)) by {
            assert forall|k: int| 0 <= k < toks_text(rest).len() implies cs.subrange(
                j,
                cs.len() as int,
            )[k] == toks_text(rest)[k] by {
                assert(cs.subrange(i, cs.len() as int)[x.len() + 1 + k] == whole[x.len() + 1 + k]);
            }
        }
        assert(well_spelled(rest)) by {
            assert forall|a: int| 0 <= a < rest.len() implies (#[trigger] rest[a] matches TokV::Ident(
                s,
            ) ==> is_ident_text(s)) by {
                assert(rest[a] == ts[a + 1]);
            }
        }
        lemma_lex_text(cs, j, rest);
        assert(seq![t] + rest =~= ts);
        match t {
            TokV::Ident(s) => {
                assert(is_ident_text(s));
                assert(cs[i] == s[0]);
                assert forall|k: int| i + 1 <= k < i + s.len() implies is_ident_continue(
                    #[trigger] cs[k],
                ) by {
                    assert(cs[k] == x[k - i]);
                }
                lemma_ident_end_at(cs, i + 1, i + s.len());
                assert(cs.subrange(i, i + s.len()) =~= s);
                assert(!is_space(cs[i]) && cs[i] != '/' && is_ident_start(cs[i]));
                assert(spec_lex(cs, i + s.len()) == spec_lex(cs, j));
                assert(spec_lex(cs, i) == Ok::<_, int>(seq![TokV::Ident(s)] + rest));
            },
            _ => {
                assert(cs[i] == x[0]);
                assert(!is_space(cs[i]) && cs[i] != '/' && !is_ident_start(cs[i]));
                assert(punct_of(cs[i]) == Some(t));
                assert(spec_lex(cs, i + 1) == spec_lex(cs, j));
                assert(spec_lex(cs, i) == Ok::<_, int>(seq![t] + rest));
            },
        }
    }
}

/// Writing a valid list of sections as text, each token followed by a space,
/// and reading the text back gives the same tokens and the same sections, as
/// long as every name is spelled as an identifier.
pub proof fn law_text_roundtrip(d: Seq<SectionView>)
    requires
        valid_doc(d),
        well_spelled(doc_render(d)),
    ensures
        spec_lex(toks_text(doc_render(d)), 0) == Ok::<_, int>(doc_render(d)),
        spec_doc(doc_render(d), 0) == Ok::<_, (int, ParseErrorKind)>(d),
{
    let ts = doc_render(d);
    let cs = toks_text(ts);
    assert(cs.subrange(0, cs.len() as int) =~= cs);
    lemma_lex_text(cs, 0, ts);
    law_parse_complete(d);
}

} // verus!
verus! {

/// `x` and `y` are white space that ends no line.
spec fn blank_pair(x: char, y: char) -> bool {
    is_space(x) && is_space(y) && x != '\n' && y != '\n'
}

proof fn lemma_blank_line_end(cs: Seq<char>, p: int, c: char, k: int)
    requires
        0 <= p < cs.len(),
        blank_pair(cs[p], c),
    ensures
        line_end(cs.update(p, c), k) == line_end(cs, k),
    decreases cs.len() - k,
{
    if 0 <= k < cs.len() {
        lemma_blank_line_end(cs, p, c, k + 1);
    }
}

proof fn lemma_blank_ident_end(cs: Seq<char>, p: int, c: char, k: int)
    requires
        0 <= p < cs.len(),
        blank_pair(cs[p], c),
    ensures
        ident_end(cs.update(p, c), k) == ident_end(cs, k),
    decreases cs.len() - k,
{
    if 0 <= k < cs.len() {
        lemma_blank_ident_end(cs, p, c, k + 1);
    }
}

proof fn lemma_blank_block_end(cs: Seq<char>, p: int, c: char, j: int, depth: nat)
    requires
        0 <= p < cs.len(),
        blank_pair(cs[p], c),
    ensures
        block_end(cs.update(p, c), j, depth) == block_end(cs, j, depth),
    decreases cs.len() - j,
{
    if j < 0 || j + 1 >= cs.len() {
    } else if cs[j] == '*' && cs[j + 1] == '/' {
        if depth > 1 {
            lemma_blank_block_end(cs, p, c, j + 2, (depth - 1) as nat);
        }
    } else if cs[j] == '/' && cs[j + 1] == '*' {
        lemma_blank_block_end(cs, p, c, j + 2, depth + 1);
    } else {
        lemma_blank_block_end(cs, p, c, j + 1, depth);
    }
}

proof fn lemma_blank_lex(cs: Seq<char>, p: int, c: char, i: int)
    requires
        0 <= p < cs.len(),
        blank_pair(cs[p], c),
    ensures
        spec_lex(cs.update(p, c), i) == spec_lex(cs, i),
    decreases cs.len() - i,
{
    let ds = cs.update(p, c);
    if i < 0 || i >= cs.len() {
    } else if is_space(cs[i]) {
        lemma_blank_lex(cs, p, c, i + 1);
    } else if cs[i] == '/' && i + 1 < cs.len() && cs[i + 1] == '/' && !is_doc_comment(cs, i) {
        lemma_ends(cs, i + 2);
        lemma_blank_line_end(cs, p, c, i + 2);
        lemma_blank_lex(cs, p, c, line_end(cs, i + 2));
    } else if cs[i] == '/' && i + 1 < cs.len() && cs[i + 1] == '*' && !is_doc_block(cs, i) {
        lemma_block_end(cs, i + 2, 1);
        lemma_blank_block_end(cs, p, c, i + 2, 1);
        if let Some(k) = block_end(cs, i + 2, 1) {
            lemma_blank_lex(cs, p, c, k);
        }
    } else if is_ident_start(cs[i]) {
        lemma_ends(cs, i + 1);
        lemma_blank_ident_end(cs, p, c, i + 1);
        let j = ident_end(cs, i + 1);
        lemma_blank_lex(cs, p, c, j);
        assert(ds.subrange(i, j) =~= cs.subrange(i, j)) by {
            if i < p && p < j {
                assert(is_ident_continue(cs[p]));
            }
        }
    } else {
        lemma_blank_lex(cs, p, c, i + 1);
    }
}

/// Any white space that ends no line separates tokens just as a space does:
/// putting a tab, a carriage return, a vertical tab, a form feed, a next-line
/// character, a direction mark or a line or paragraph separator in place of a
/// space anywhere in a text reads the same tokens, or fails at the same
/// place.
pub proof fn law_white_space_is_interchangeable(cs: Seq<char>, p: int, c: char)
    requires
        0 <= p < cs.len(),
        cs[p] == ' ',
        c == '\t' || c == '\r' || c == '\u{b}' || c == '\u{c}' || c == '\u{85}' || c == '\u{200e}'
            || c == '\u{200f}' || c == '\u{2028}' || c == '\u{2029}',
    ensures
        spec_lex(cs.update(p, c), 0) == spec_lex(cs, 0),
{
    lemma_blank_lex(cs, p, c, 0);
}

} // verus!
