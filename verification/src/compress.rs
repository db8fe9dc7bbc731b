//! Rust skeleton compression: every top-level item of a parsed file is
//! either kept verbatim or replaced by a hash stub, and the bodies that were
//! cut out are returned with their hash and size.
//!
//! Parsing and the facts read off the syntax tree (item kinds, spans, token
//! text) come from `syn`; what is done with them is verified here.
use vstd::prelude::*;
use quote::ToTokens;
use syn::spanned::Spanned;
use crate::cache::strs;
use crate::rustfmt::{replace_all, replace_all_vec};
use crate::stable_hash::{spec_body_hash, stable_hash_body};
use crate::text::{
    append, append_str, chars_of, count_lines, decimal, decimal_vec, lines, split_lines,
    string_of, views, slice_vec,
};

verus! {

// ───────────────────────── outline of a parsed file ─────────────────────────

/// The kinds of top-level items the compressor tells apart.
#[derive(PartialEq, Eq, Structural, Clone, Copy, Debug)]
pub enum ItemKind {
    Fn,
    Impl,
    Struct,
    Enum,
    Trait,
    Other,
}

/// Start and end of a span: 1-based lines, 0-based character columns.
#[derive(PartialEq, Eq, Structural, Clone, Copy, Debug)]
pub struct SpanPos {
    pub start_line: usize,
    pub start_col: usize,
    pub end_line: usize,
    pub end_col: usize,
}

/// What the compressor reads from one top-level item.
#[derive(Clone, Debug)]
pub struct RustItem {
    pub kind: ItemKind,
    /// Span of the whole item.
    pub span: SpanPos,
    /// Span of a function's body block (zeros for other items).
    pub block_span: SpanPos,
    /// The item's tokens, printed.
    pub tokens: String,
    /// A function's body block, printed (empty for other items).
    pub block_tokens: String,
    /// The name of a struct, enum or trait (empty for other items).
    pub ident: String,
    /// An impl block with every method body emptied, printed (empty for
    /// other items).
    pub stub_tokens: String,
}

/// A `RustItem` with its strings as character sequences.
pub struct ItemView {
    pub kind: ItemKind,
    pub span: SpanPos,
    pub block_span: SpanPos,
    pub tokens: Seq<char>,
    pub block_tokens: Seq<char>,
    pub ident: Seq<char>,
    pub stub_tokens: Seq<char>,
}

impl View for RustItem {
    type V = ItemView;

    open spec fn view(&self) -> ItemView {
        ItemView {
            kind: self.kind,
            span: self.span,
            block_span: self.block_span,
            tokens: self.tokens@,
            block_tokens: self.block_tokens@,
            ident: self.ident@,
            stub_tokens: self.stub_tokens@,
        }
    }
}

/// The views of a list of items.
pub open spec fn item_views(items: Seq<RustItem>) -> Seq<ItemView> {
    items.map_values(|it: RustItem| it@)
}

// ───────────────────────── cutting spans out of the source ─────────────────────────

pub open spec fn min_int(a: int, b: int) -> int {
    if a <= b {
        a
    } else {
        b
    }
}

/// The part of line `i` (1-based) that a span covers; lines the span goes on
/// past keep their newline. Columns count characters, as the parser's do,
/// and are capped at the line's length.
pub open spec fn span_piece(ls: Seq<Seq<char>>, sp: SpanPos, i: int) -> Seq<char> {
    let line = ls[i - 1];
    let n = line.len() as int;
    if i == sp.start_line && i == sp.end_line {
        let eb = min_int(sp.end_col as int, n);
        let sb = min_int(sp.start_col as int, eb);
        line.subrange(sb, eb)
    } else if i == sp.start_line {
        line.subrange(min_int(sp.start_col as int, n), n).push('\n')
    } else if i == sp.end_line {
        line.subrange(0, min_int(sp.end_col as int, n))
    } else {
        line.push('\n')
    }
}

/// The pieces of lines `start_line .. j` (1-based, `j` excluded), joined.
pub open spec fn span_pieces(ls: Seq<Seq<char>>, sp: SpanPos, j: int) -> Seq<char>
    decreases j - sp.start_line,
{
    if j <= sp.start_line {
        seq![]
    } else {
        span_pieces(ls, sp, j - 1) + span_piece(ls, sp, j - 1)
    }
}

/// The source text of a span, or `None` when the span does not lie within
/// the source lines.
pub open spec fn span_text(ls: Seq<Seq<char>>, sp: SpanPos) -> Option<Seq<char>> {
    if sp.start_line == 0 || sp.end_line == 0 || sp.start_line > sp.end_line {
        None
    } else if sp.start_line > ls.len() || sp.end_line > ls.len() {
        None
    } else {
        Some(span_pieces(ls, sp, sp.end_line + 1))
    }
}

/// The text of a span, or the fallback where the span is unusable.
pub open spec fn text_or(c: Option<Seq<char>>, fallback: Seq<char>) -> Seq<char> {
    match c {
        None => fallback,
        Some(t) => t,
    }
}

// ───────────────────────── the compression of one item ─────────────────────────

/// An extracted body: hash, file path, body text and line count.
pub type Record = (String, String, String, usize);

/// A record with its strings as character sequences.
pub open spec fn record_view(r: Record) -> (Seq<char>, Seq<char>, Seq<char>, nat) {
    (r.0@, r.1@, r.2@, r.3 as nat)
}

pub open spec fn record_views(rs: Seq<Record>) -> Seq<(Seq<char>, Seq<char>, Seq<char>, nat)> {
    rs.map_values(|r: Record| record_view(r))
}

/// The stub that replaces a function body.
pub open spec fn hash_stub(hash: Seq<char>, loc: nat) -> Seq<char> {
    "{ /* HASH:"@ + hash + " ["@ + decimal(loc) + " LOC] */ }"@
}

/// The comment that stands before a stubbed impl block.
pub open spec fn hash_note(hash: Seq<char>, loc: nat) -> Seq<char> {
    "/* HASH:"@ + hash + " ["@ + decimal(loc) + " LOC] */\n"@
}

/// The comment that stands for a struct, enum or trait.
pub open spec fn named_note(hash: Seq<char>, loc: nat, label: Seq<char>, ident: Seq<char>) -> Seq<char> {
    "/* HASH:"@ + hash + " ["@ + decimal(loc) + " LOC] ("@ + label + ident + ") */\n"@
}

/// The label that names a struct, enum or trait in its note.
pub open spec fn kind_label(k: ItemKind) -> Seq<char> {
    match k {
        ItemKind::Struct => "struct "@,
        ItemKind::Enum => "enum "@,
        _ => "trait "@,
    }
}

/// The record of a body: hash, path, text and line count.
pub open spec fn body_record(body: Seq<char>, path: Seq<char>) -> (Seq<char>, Seq<char>, Seq<char>, nat) {
    (spec_body_hash(body, path), path, body, lines(body).len())
}

/// What one item contributes: perhaps an extracted body, and the text added
/// to the skeleton.
pub open spec fn item_step(ls: Seq<Seq<char>>, path: Seq<char>, it: ItemView) -> (
    Option<(Seq<char>, Seq<char>, Seq<char>, nat)>,
    Seq<char>,
) {
    match it.kind {
        ItemKind::Fn => {
            let bt = span_text(ls, it.block_span);
            let rec = body_record(text_or(bt, it.block_tokens), path);
            let stub = hash_stub(rec.0, rec.3);
            let fallback = replace_all(it.tokens, it.block_tokens, stub);
            match (span_text(ls, it.span), bt) {
                (Some(fn_text), Some(body_text)) => (Some(rec), replace_all(fn_text, body_text, stub).push('\n')),
                _ => (Some(rec), fallback.push('\n')),
            }
        },
        ItemKind::Impl => {
            let rec = body_record(text_or(span_text(ls, it.span), it.tokens), path);
            (Some(rec), hash_note(rec.0, rec.3) + it.stub_tokens.push('\n'))
        },
        ItemKind::Other => (None, text_or(span_text(ls, it.span), it.tokens).push('\n')),
        _ => {
            let rec = body_record(text_or(span_text(ls, it.span), it.tokens), path);
            (Some(rec), named_note(rec.0, rec.3, kind_label(it.kind), it.ident))
        },
    }
}

/// The records and skeleton of a list of items, in order.
pub open spec fn spec_compress(ls: Seq<Seq<char>>, path: Seq<char>, items: Seq<ItemView>) -> (
    Seq<(Seq<char>, Seq<char>, Seq<char>, nat)>,
    Seq<char>,
)
    decreases items.len(),
{
    if items.len() == 0 {
        (seq![], seq![])
    } else {
        let acc = spec_compress(ls, path, items.drop_last());
        let step = item_step(ls, path, items.last());
        (
            match step.0 {
                Some(r) => acc.0.push(r),
                None => acc.0,
            },
            acc.1 + step.1,
        )
    }
}

/// The view of a compression result.
pub open spec fn result_view(r: (Vec<Record>, String)) -> (
    Seq<(Seq<char>, Seq<char>, Seq<char>, nat)>,
    Seq<char>,
) {
    (record_views(r.0@), r.1@)
}

// ───────────────────────── the compressor ─────────────────────────

/// Accumulates the records and the skeleton of one file.
pub struct Compressor {
    file_path: String,
    source_lines: Vec<String>,
    hashes: Vec<Record>,
    skeleton: Vec<char>,
}

impl Compressor {
    pub closed spec fn path(self) -> Seq<char> {
        self.file_path@
    }

    pub closed spec fn src_lines(self) -> Seq<Seq<char>> {
        strs(self.source_lines@)
    }

    pub closed spec fn records(self) -> Seq<(Seq<char>, Seq<char>, Seq<char>, nat)> {
        record_views(self.hashes@)
    }

    pub closed spec fn skel(self) -> Seq<char> {
        self.skeleton@
    }

    /// A compressor for `source_code`, found at `file_path`, with nothing
    /// extracted yet.
    pub fn new(file_path: &str, source_code: &str) -> (res: Self)
        ensures
            res.path() == file_path@,
            res.src_lines() == lines(source_code@),
            res.records() == Seq::<(Seq<char>, Seq<char>, Seq<char>, nat)>::empty(),
            res.skel() == Seq::<char>::empty(),
    {
        let ls = split_lines(&chars_of(source_code));
        let mut source_lines: Vec<String> = Vec::new();
        let mut i: usize = 0;
        while i < ls.len()
            invariant
                i <= ls@.len(),
                strs(source_lines@) == views(ls@).take(i as int),
            decreases ls.len() - i,
        {
            let ghost before = source_lines@;
            let line = string_of(&ls[i]);
            assert(line@ == views(ls@)[i as int]);
            source_lines.push(line);
            assert(strs(source_lines@) =~= strs(before).push(line@));
            assert(views(ls@).take(i + 1) =~= views(ls@).take(i as int).push(views(ls@)[i as int]));
            i += 1;
        }
        assert(views(ls@).take(ls@.len() as int) =~= views(ls@));
        let res = Compressor {
            file_path: string_of(&chars_of(file_path)),
            source_lines,
            hashes: Vec::new(),
            skeleton: Vec::new(),
        };
        assert(res.records() =~= Seq::<(Seq<char>, Seq<char>, Seq<char>, nat)>::empty());
        res
    }

    /// The hash of a body of this file. Uses SHA-256 under the hood. 12 hex
    /// chars, deterministic.
    pub fn hash_body(&self, body: &str) -> (res: String)
        ensures
            res@ == spec_body_hash(body@, self.path()),
            res@.len() == 12,
    {
        stable_hash_body(body, self.file_path.as_str())
    }

    /// Extract the exact source text for a span, preserving formatting;
    /// `None` when the span does not lie within the source.
    fn get_span_text(&self, span: SpanPos) -> (res: Option<Vec<char>>)
        ensures
            opt_view(res) == span_text(self.src_lines(), span),
    {
        let ghost ls = self.src_lines();
        if span.start_line == 0 || span.end_line == 0 || span.start_line > span.end_line {
            return None;
        }
        let n = self.source_lines.len();
        if span.start_line > n || span.end_line > n {
            return None;
        }
        let mut result: Vec<char> = Vec::new();
        let mut idx: usize = span.start_line - 1;
        while idx < span.end_line
            invariant
                ls == self.src_lines(),
                ls.len() == n,
                1 <= span.start_line <= span.end_line <= n,
                span.start_line - 1 <= idx <= span.end_line,
                span_pieces(ls, span, idx + 1) == result@,
            decreases span.end_line - idx,
        {
            let line = chars_of(self.source_lines[idx].as_str());
            assert(line@ == ls[idx as int]);
            let len = line.len();
            let i = idx + 1;
            if i == span.start_line && i == span.end_line {
                let eb = if span.end_col < len { span.end_col } else { len };
                let sb = if span.start_col < eb { span.start_col } else { eb };
                append(&mut result, &slice_vec(&line, sb, eb));
            } else if i == span.start_line {
                let sb = if span.start_col < len { span.start_col } else { len };
                append(&mut result, &slice_vec(&line, sb, len));
                result.push('\n');
            } else if i == span.end_line {
                let eb = if span.end_col < len { span.end_col } else { len };
                append(&mut result, &slice_vec(&line, 0, eb));
            } else {
                append(&mut result, &line);
                result.push('\n');
            }
            idx += 1;
        }
        Some(result)
    }
}

pub open spec fn opt_view(o: Option<Vec<char>>) -> Option<Seq<char>> {
    match o {
        Some(v) => Some(v@),
        None => None,
    }
}

/// The stub that replaces a function body.
fn hash_stub_vec(hash: &String, loc: usize) -> (res: Vec<char>)
    ensures
        res@ == hash_stub(hash@, loc as nat),
{
    let mut v: Vec<char> = Vec::new();
    append_str(&mut v, "{ /* HASH:");
    append_str(&mut v, hash.as_str());
    append_str(&mut v, " [");
    append(&mut v, &decimal_vec(loc as u128));
    append_str(&mut v, " LOC] */ }");
    v
}

/// The comment before a stubbed impl block.
fn hash_note_vec(hash: &String, loc: usize) -> (res: Vec<char>)
    ensures
        res@ == hash_note(hash@, loc as nat),
{
    let mut v: Vec<char> = Vec::new();
    append_str(&mut v, "/* HASH:");
    append_str(&mut v, hash.as_str());
    append_str(&mut v, " [");
    append(&mut v, &decimal_vec(loc as u128));
    append_str(&mut v, " LOC] */\n");
    v
}

/// The comment that stands for a struct, enum or trait.
fn named_note_vec(hash: &String, loc: usize, kind: ItemKind, ident: &String) -> (res: Vec<char>)
    ensures
        res@ == named_note(hash@, loc as nat, kind_label(kind), ident@),
{
    let mut v: Vec<char> = Vec::new();
    append_str(&mut v, "/* HASH:");
    append_str(&mut v, hash.as_str());
    append_str(&mut v, " [");
    append(&mut v, &decimal_vec(loc as u128));
    append_str(&mut v, " LOC] (");
    match kind {
        ItemKind::Struct => append_str(&mut v, "struct "),
        ItemKind::Enum => append_str(&mut v, "enum "),
        _ => append_str(&mut v, "trait "),
    }
    append_str(&mut v, ident.as_str());
    append_str(&mut v, ") */\n");
    v
}

impl Compressor {
    /// The record of a body of this file.
    fn make_record(&self, body: &Vec<char>) -> (res: Record)
        ensures
            record_view(res) == body_record(body@, self.path()),
    {
        let body_s = string_of(body);
        let loc = count_lines(body);
        let hash = self.hash_body(body_s.as_str());
        (hash, self.file_path.clone(), body_s, loc)
    }

    /// Compress one item: record its body (if it has one) and add its
    /// skeleton text.
    pub fn compress_item(&mut self, item: &RustItem)
        ensures
            final(self).path() == old(self).path(),
            final(self).src_lines() == old(self).src_lines(),
            ({
                let step = item_step(old(self).src_lines(), old(self).path(), item@);
                &&& final(self).skel() == old(self).skel() + step.1
                &&& final(self).records() == match step.0 {
                    Some(r) => old(self).records().push(r),
                    None => old(self).records(),
                }
            }),
    {
        let (rec, add): (Option<Record>, Vec<char>) = match item.kind {
            ItemKind::Fn => {
                let bt = self.get_span_text(item.block_span);
                let body = match &bt {
                    Some(t) => slice_vec(t, 0, t.len()),
                    None => chars_of(item.block_tokens.as_str()),
                };
                assert(body@ =~= text_or(span_text(self.src_lines(), item.block_span), item.block_tokens@));
                let r = self.make_record(&body);
                let stub = hash_stub_vec(&r.0, r.3);
                let ft = self.get_span_text(item.span);
                let mut text = match (ft, &bt) {
                    (Some(fn_text), Some(body_text)) => replace_all_vec(&fn_text, body_text, &stub),
                    _ => replace_all_vec(
                        &chars_of(item.tokens.as_str()),
                        &chars_of(item.block_tokens.as_str()),
                        &stub,
                    ),
                };
                text.push('\n');
                (Some(r), text)
            },
            ItemKind::Impl => {
                let body = match self.get_span_text(item.span) {
                    Some(t) => t,
                    None => chars_of(item.tokens.as_str()),
                };
                let r = self.make_record(&body);
                let mut text = hash_note_vec(&r.0, r.3);
                append_str(&mut text, item.stub_tokens.as_str());
                text.push('\n');
                (Some(r), text)
            },
            ItemKind::Other => {
                let mut text = match self.get_span_text(item.span) {
                    Some(t) => t,
                    None => chars_of(item.tokens.as_str()),
                };
                text.push('\n');
                (None, text)
            },
            _ => {
                let body = match self.get_span_text(item.span) {
                    Some(t) => t,
                    None => chars_of(item.tokens.as_str()),
                };
                let r = self.make_record(&body);
                let text = named_note_vec(&r.0, r.3, item.kind, &item.ident);
                (Some(r), text)
            },
        };
        let ghost old_hashes = self.hashes@;
        match rec {
            Some(r) => {
                self.hashes.push(r);
                assert(record_views(self.hashes@) =~= record_views(old_hashes).push(record_view(r)));
            },
            None => {},
        }
        append(&mut self.skeleton, &add);
    }

    /// The records and the skeleton gathered so far.
    pub fn finish(self) -> (res: (Vec<Record>, String))
        ensures
            record_views(res.0@) == self.records(),
            res.1@ == self.skel(),
    {
        let skeleton = string_of(&self.skeleton);
        (self.hashes, skeleton)
    }
}

/// Compress the given items of `code`, found at `file_path`: the extracted
/// bodies with their hashes and line counts, and the skeleton.
pub fn compress_items(code: &str, file_path: &str, items: &Vec<RustItem>) -> (res: (Vec<Record>, String))
    ensures
        result_view(res) == spec_compress(lines(code@), file_path@, item_views(items@)),
{
    let ghost ls = lines(code@);
    let ghost its = item_views(items@);
    let mut c = Compressor::new(file_path, code);
    let mut i: usize = 0;
    while i < items.len()
        invariant
            i <= items@.len(),
            its == item_views(items@),
            ls == lines(code@),
            c.path() == file_path@,
            c.src_lines() == ls,
            spec_compress(ls, file_path@, its.take(i as int)) == (c.records(), c.skel()),
        decreases items.len() - i,
    {
        proof {
            assert(its.take(i + 1).drop_last() =~= its.take(i as int));
            assert(its.take(i + 1).last() == items@[i as int]@);
        }
        c.compress_item(&items[i]);
        i += 1;
    }
    assert(its.take(its.len() as int) =~= its);
    c.finish()
}

// ───────────────────────── reading items with `syn` ─────────────────────────

#[verifier::external_type_specification]
#[verifier::external_body]
pub struct ExItem(syn::Item);

/// A source text with the items `syn` parsed from it. Only `parse_rust`
/// makes values of this type, so the items are always those of the source.
pub struct ParsedFile {
    code: String,
    items: Vec<syn::Item>,
}

impl ParsedFile {
    /// The text that was parsed.
    pub closed spec fn source(self) -> Seq<char> {
        self.code@
    }

    /// The number of top-level items.
    pub closed spec fn count(self) -> nat {
        self.items@.len()
    }
}

/// The number of top-level items `syn` parses from a text, or `None` where
/// it rejects the text.
pub uninterp spec fn syn_item_count(code: Seq<char>) -> Option<nat>;

/// Which kind of item the `i`-th top-level item of a text is.
pub uninterp spec fn syn_item_kind(code: Seq<char>, i: int) -> ItemKind;

/// The span of the `i`-th top-level item of a text.
pub uninterp spec fn syn_item_span(code: Seq<char>, i: int) -> SpanPos;

/// The span of the body block of the `i`-th item, where it is a function.
pub uninterp spec fn syn_block_span(code: Seq<char>, i: int) -> Option<SpanPos>;

/// The printed tokens of the `i`-th top-level item of a text.
pub uninterp spec fn syn_item_tokens(code: Seq<char>, i: int) -> Seq<char>;

/// The printed tokens of the body block of the `i`-th item, where it is a
/// function.
pub uninterp spec fn syn_block_tokens(code: Seq<char>, i: int) -> Option<Seq<char>>;

/// The name of the `i`-th item, where it is a struct, enum or trait.
pub uninterp spec fn syn_item_ident(code: Seq<char>, i: int) -> Option<Seq<char>>;

/// For each member of the `i`-th item, where it is an impl block, whether it
/// is a method (`syn::ImplItem::Fn`).
pub uninterp spec fn syn_impl_member_kinds(code: Seq<char>, i: int) -> Option<Seq<bool>>;

/// The printed tokens of the `i`-th item, where it is an impl block, after
/// the body of each method whose place in `mask` is `true` is replaced by an
/// empty block.
pub uninterp spec fn syn_impl_printed(code: Seq<char>, i: int, mask: Seq<bool>) -> Option<Seq<char>>;

pub open spec fn opt_chars(o: Option<String>) -> Option<Seq<char>> {
    match o {
        Some(s) => Some(s@),
        None => None,
    }
}

/// Calls `syn::parse_str::<syn::File>`. Claimed: it succeeds exactly when
/// `syn_item_count` of the text is `Some`, with that many items, which are
/// kept beside the text.
#[verifier::external_body]
fn parse_rust(code: &str) -> (res: Option<ParsedFile>)
    ensures
        match res {
            Some(pf) => syn_item_count(code@) == Some(pf.count()) && pf.source() == code@,
            None => syn_item_count(code@) is None,
        },
{
    match syn::parse_str::<syn::File>(code) {
        Ok(f) => Some(ParsedFile { code: code.to_string(), items: f.items }),
        Err(_) => None,
    }
}

/// Tells the variants of `syn::Item` apart. Claimed: the result is
/// `syn_item_kind` of the source and index.
#[verifier::external_body]
fn item_kind(pf: &ParsedFile, i: usize) -> (res: ItemKind)
    requires
        i < pf.count(),
    ensures
        res == syn_item_kind(pf.source(), i as int),
{
    match &pf.items[i] {
        syn::Item::Fn(_) => ItemKind::Fn,
        syn::Item::Impl(_) => ItemKind::Impl,
        syn::Item::Struct(_) => ItemKind::Struct,
        syn::Item::Enum(_) => ItemKind::Enum,
        syn::Item::Trait(_) => ItemKind::Trait,
        _ => ItemKind::Other,
    }
}

/// Calls `Spanned::span` on the item and `Span::start` / `Span::end` on the
/// result. Claimed: the positions are `syn_item_span` of the source and index.
#[verifier::external_body]
fn item_span(pf: &ParsedFile, i: usize) -> (res: SpanPos)
    requires
        i < pf.count(),
    ensures
        res == syn_item_span(pf.source(), i as int),
{
    let (s, e) = (pf.items[i].span().start(), pf.items[i].span().end());
    SpanPos { start_line: s.line, start_col: s.column, end_line: e.line, end_col: e.column }
}

/// Calls `Spanned::span` on a function's body block and `Span::start` /
/// `Span::end` on the result. Claimed: the result is `syn_block_span` of the
/// source and index.
#[verifier::external_body]
fn block_span(pf: &ParsedFile, i: usize) -> (res: Option<SpanPos>)
    requires
        i < pf.count(),
    ensures
        res == syn_block_span(pf.source(), i as int),
{
    match &pf.items[i] {
        syn::Item::Fn(f) => {
            let (s, e) = (f.block.span().start(), f.block.span().end());
            Some(SpanPos { start_line: s.line, start_col: s.column, end_line: e.line, end_col: e.column })
        },
        _ => None,
    }
}

/// Calls `ToTokens::to_token_stream` on the item and prints the stream.
/// Claimed: the text is `syn_item_tokens` of the source and index.
#[verifier::external_body]
fn item_tokens(pf: &ParsedFile, i: usize) -> (res: String)
    requires
        i < pf.count(),
    ensures
        res@ == syn_item_tokens(pf.source(), i as int),
{
    pf.items[i].to_token_stream().to_string()
}

/// Calls `ToTokens::to_token_stream` on a function's body block and prints
/// the stream. Claimed: the result is `syn_block_tokens` of the source and
/// index.
#[verifier::external_body]
fn block_tokens(pf: &ParsedFile, i: usize) -> (res: Option<String>)
    requires
        i < pf.count(),
    ensures
        opt_chars(res) == syn_block_tokens(pf.source(), i as int),
{
    match &pf.items[i] {
        syn::Item::Fn(f) => Some(f.block.to_token_stream().to_string()),
        _ => None,
    }
}

/// Prints the `Ident` of a struct, enum or trait. Claimed: the result is
/// `syn_item_ident` of the source and index.
#[verifier::external_body]
fn item_ident(pf: &ParsedFile, i: usize) -> (res: Option<String>)
    requires
        i < pf.count(),
    ensures
        opt_chars(res) == syn_item_ident(pf.source(), i as int),
{
    match &pf.items[i] {
        syn::Item::Struct(s) => Some(s.ident.to_string()),
        syn::Item::Enum(e) => Some(e.ident.to_string()),
        syn::Item::Trait(t) => Some(t.ident.to_string()),
        _ => None,
    }
}

/// Reads the members of an impl block and tells, one arm per variant,
/// whether each is a `syn::ImplItem::Fn`. Claimed: the result is
/// `syn_impl_member_kinds` of the source and index.
#[verifier::external_body]
fn impl_member_kinds(pf: &ParsedFile, i: usize) -> (res: Option<Vec<bool>>)
    requires
        i < pf.count(),
    ensures
        opt_bools(res) == syn_impl_member_kinds(pf.source(), i as int),
{
    match &pf.items[i] {
        syn::Item::Impl(imp) => Some(
            imp.items.iter().map(|m| match m {
                syn::ImplItem::Fn(_) => true,
                _ => false,
            }).collect(),
        ),
        _ => None,
    }
}

/// Clones an impl block, gives each method that `mask` marks an empty
/// `syn::Block`, and prints the tokens of the result with
/// `ToTokens::to_token_stream`. Claimed: the result is `syn_impl_printed` of
/// the source, index and mask.
#[verifier::external_body]
fn print_impl_emptied(pf: &ParsedFile, i: usize, mask: &Vec<bool>) -> (res: Option<String>)
    requires
        i < pf.count(),
    ensures
        opt_chars(res) == syn_impl_printed(pf.source(), i as int, mask@),
{
    match &pf.items[i] {
        syn::Item::Impl(imp) => {
            let mut skel = imp.clone();
            for (m, empty) in skel.items.iter_mut().zip(mask.iter()) {
                if let (syn::ImplItem::Fn(f), true) = (m, *empty) {
                    f.block = syn::Block { brace_token: Default::default(), stmts: Vec::new() };
                }
            }
            Some(skel.to_token_stream().to_string())
        },
        _ => None,
    }
}

pub open spec fn opt_bools(o: Option<Vec<bool>>) -> Option<Seq<bool>> {
    match o {
        Some(v) => Some(v@),
        None => None,
    }
}

/// Which members of an impl block lose their body in the skeleton: every
/// method, and nothing else (constants, types and macros are kept whole).
pub open spec fn stub_rule(kinds: Seq<bool>) -> Seq<bool> {
    Seq::new(kinds.len(), |j: int| kinds[j])
}

/// The mask for an impl block's skeleton: `true` exactly at its methods.
pub fn stub_mask(kinds: &Vec<bool>) -> (res: Vec<bool>)
    ensures
        res@ == stub_rule(kinds@),
        forall|j: int| 0 <= j < kinds@.len() ==> (#[trigger] res@[j] <==> kinds@[j]),
{
    let mut res: Vec<bool> = Vec::new();
    let mut j: usize = 0;
    while j < kinds.len()
        invariant
            j <= kinds@.len(),
            res@ == stub_rule(kinds@).take(j as int),
        decreases kinds.len() - j,
    {
        res.push(kinds[j]);
        assert(stub_rule(kinds@).take(j + 1) =~= stub_rule(kinds@).take(j as int).push(kinds@[j as int]));
        j += 1;
    }
    assert(stub_rule(kinds@).take(kinds@.len() as int) =~= stub_rule(kinds@));
    res
}

/// The skeleton text of the `i`-th item, where it is an impl block: its
/// tokens with every method body emptied.
pub open spec fn impl_stub_text(code: Seq<char>, i: int) -> Option<Seq<char>> {
    match syn_impl_member_kinds(code, i) {
        Some(kinds) => syn_impl_printed(code, i, stub_rule(kinds)),
        None => None,
    }
}

/// The `i`-th item printed with every method body emptied, where it is an
/// impl block.
fn impl_stub(pf: &ParsedFile, i: usize) -> (res: Option<String>)
    requires
        i < pf.count(),
    ensures
        opt_chars(res) == impl_stub_text(pf.source(), i as int),
{
    match impl_member_kinds(pf, i) {
        Some(kinds) => print_impl_emptied(pf, i, &stub_mask(&kinds)),
        None => None,
    }
}

pub open spec fn text_or_empty(o: Option<Seq<char>>) -> Seq<char> {
    match o {
        Some(t) => t,
        None => seq![],
    }
}

/// A span that lies nowhere (line 0).
pub open spec fn no_span() -> SpanPos {
    SpanPos { start_line: 0, start_col: 0, end_line: 0, end_col: 0 }
}

/// The outline of the first `n` items `syn` reads from a text.
pub open spec fn syn_outline(code: Seq<char>, n: nat) -> Seq<ItemView> {
    Seq::new(
        n,
        |i: int|
            ItemView {
                kind: syn_item_kind(code, i),
                span: syn_item_span(code, i),
                block_span: match syn_block_span(code, i) {
                    Some(s) => s,
                    None => no_span(),
                },
                tokens: syn_item_tokens(code, i),
                block_tokens: text_or_empty(syn_block_tokens(code, i)),
                ident: text_or_empty(syn_item_ident(code, i)),
                stub_tokens: text_or_empty(impl_stub_text(code, i)),
            },
    )
}

fn string_or_empty(o: Option<String>) -> (res: String)
    ensures
        res@ == text_or_empty(opt_chars(o)),
{
    match o {
        Some(s) => s,
        None => String::new(),
    }
}

/// The outline of every item of a parsed file.
pub fn outline_items(pf: &ParsedFile) -> (res: Vec<RustItem>)
    ensures
        item_views(res@) == syn_outline(pf.source(), pf.count()),
{
    let n = parsed_len(pf);
    let mut res: Vec<RustItem> = Vec::new();
    let mut i: usize = 0;
    while i < n
        invariant
            i <= n,
            n == pf.count(),
            item_views(res@) == syn_outline(pf.source(), pf.count()).take(i as int),
        decreases n - i,
    {
        let block_span = match block_span(pf, i) {
            Some(s) => s,
            None => SpanPos { start_line: 0, start_col: 0, end_line: 0, end_col: 0 },
        };
        let it = RustItem {
            kind: item_kind(pf, i),
            span: item_span(pf, i),
            block_span,
            tokens: item_tokens(pf, i),
            block_tokens: string_or_empty(block_tokens(pf, i)),
            ident: string_or_empty(item_ident(pf, i)),
            stub_tokens: string_or_empty(impl_stub(pf, i)),
        };
        let ghost before = res@;
        res.push(it);
        proof {
            let o = syn_outline(pf.source(), pf.count());
            assert(item_views(res@) =~= item_views(before).push(it@));
            assert(o.take(i + 1) =~= o.take(i as int).push(o[i as int]));
        }
        i += 1;
    }
    assert(syn_outline(pf.source(), pf.count()).take(n as int) =~= syn_outline(pf.source(), pf.count()));
    res
}

/// The number of items of a parsed file.
fn parsed_len(pf: &ParsedFile) -> (res: usize)
    ensures
        res == pf.count(),
{
    pf.items.len()
}

/// `compress_code` on views: a text `syn` rejects is its own skeleton, with
/// no bodies; otherwise its items are compressed in order.
pub open spec fn spec_compress_code(code: Seq<char>, path: Seq<char>) -> (
    Seq<(Seq<char>, Seq<char>, Seq<char>, nat)>,
    Seq<char>,
) {
    match syn_item_count(code) {
        None => (seq![], code),
        Some(n) => spec_compress(lines(code), path, syn_outline(code, n)),
    }
}

/// Takes cleaned Rust code and a file path, returns extracted bodies with LOC
/// and a compressed skeleton string.
pub fn compress_code(code: &str, file_path: &str) -> (res: (Vec<Record>, String))
    ensures
        result_view(res) == spec_compress_code(code@, file_path@),
{
    match parse_rust(code) {
        None => {
            let hashes: Vec<Record> = Vec::new();
            assert(record_views(hashes@) =~= Seq::<(Seq<char>, Seq<char>, Seq<char>, nat)>::empty());
            (hashes, string_of(&chars_of(code)))
        },
        Some(pf) => {
            let items = outline_items(&pf);
            compress_items(code, file_path, &items)
        },
    }
}

/// Every extracted body is recorded under the file's path, with its line
/// count and the stable hash of that body and path.
pub proof fn lemma_compress_records(ls: Seq<Seq<char>>, path: Seq<char>, items: Seq<ItemView>)
    ensures
        ({
            let c = spec_compress(ls, path, items);
            forall|k: int| 0 <= k < c.0.len() ==> #[trigger] c.0[k] == body_record(c.0[k].2, path)
        }),
    decreases items.len(),
{
    if items.len() > 0 {
        lemma_compress_records(ls, path, items.drop_last());
        let acc = spec_compress(ls, path, items.drop_last());
        let c = spec_compress(ls, path, items);
        assert forall|k: int| 0 <= k < c.0.len() implies #[trigger] c.0[k] == body_record(c.0[k].2, path) by {
            if k < acc.0.len() {
                assert(c.0[k] == acc.0[k]);
            }
        }
    }
}

/// What `compress_code` records: every body under the given path, hashed
/// with `stable_hash_body` and counted by its lines.
pub proof fn lemma_compress_code_records(code: Seq<char>, path: Seq<char>)
    ensures
        forall|k: int| 0 <= k < spec_compress_code(code, path).0.len() ==> {
            let r = #[trigger] spec_compress_code(code, path).0[k];
            &&& r.1 == path
            &&& r.0 == spec_body_hash(r.2, path)
            &&& r.3 == lines(r.2).len()
        },
{
    match syn_item_count(code) {
        Some(n) => {
            lemma_compress_records(lines(code), path, syn_outline(code, n));
        },
        None => {},
    }
}

} // verus!
