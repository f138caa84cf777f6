//! The parser: a recursive descent over the rule tree that the grammar engine makes of a
//! source. Each parse either succeeds, fails softly (the rule it looks for is not there, and
//! the caller may try another), or fails hard with a trail of the rules it was inside.

use vstd::prelude::*;

use crate::ast::{Block, BlockTag, Document, Inline, InlineTag, Literal, Meta};
use crate::error::{recover, Error, ErrorKind, Location, Rule};
use crate::key::{Key, KeyView};
use crate::props::PropSet;
use crate::text::{str_eq, Text};

verus! {

/// A match of one grammar rule: the rule, the byte span and the text of the source that it
/// covers, and the matches of the rules nested in it, in source order.
#[derive(Debug)]
pub struct Pair<'p> {
    pub rule: Rule,
    pub start: usize,
    pub end: usize,
    pub text: &'p str,
    pub inner: Vec<Pair<'p>>,
}

/// A cursor over a sequence of sibling matches.
pub struct Pairs<'r, 'p> {
    pub items: &'r [Pair<'p>],
    pub pos: usize,
}

impl<'r, 'p> Pairs<'r, 'p> {
    /// Whether the cursor stands within its matches, or just past the last.
    pub open spec fn wf(&self) -> bool {
        self.pos <= self.items@.len()
    }

    /// The matches not yet used.
    pub open spec fn rest(&self) -> Seq<Pair<'p>> {
        self.items@.subrange(self.pos as int, self.items@.len() as int)
    }

    /// Whether `self` is `before` moved forward by zero or more matches.
    pub open spec fn follows(&self, before: Pairs<'r, 'p>) -> bool {
        &&& self.items == before.items
        &&& before.pos <= self.pos
        &&& self.wf()
    }

    /// A cursor at the first of `items`.
    pub fn new(items: &'r [Pair<'p>]) -> (r: Pairs<'r, 'p>)
        ensures
            r.items == items,
            r.pos == 0,
    {
        Pairs { items, pos: 0 }
    }

    /// Takes the next match if it is of rule `rule`; otherwise fails softly.
    pub fn rule(&mut self, rule: Rule) -> (r: Result<&'r Pair<'p>, Error>)
        requires
            old(self).wf(),
        ensures
            final(self).wf(),
            final(self).items == old(self).items,
            match r {
                Ok(p) => old(self).pos < old(self).items@.len() && *p == old(self).items@[old(self).pos as int]
                    && p.rule == rule && final(self).pos == old(self).pos + 1,
                Err(e) => e.kind is NoMatch && e.spans@.len() == 0 && final(self).pos == old(self).pos
                    && (old(self).pos == old(self).items@.len() || old(self).items@[old(self).pos as int].rule != rule),
            },
    {
        if self.pos < self.items.len() && self.items[self.pos].rule == rule {
            let p = &self.items[self.pos];
            self.pos = self.pos + 1;
            Ok(p)
        } else {
            Err(Error::new(ErrorKind::NoMatch))
        }
    }

    /// Succeeds when every match has been used; otherwise fails with the rules left over.
    pub fn assert_empty(&self) -> (r: Result<(), Error>)
        requires
            self.wf(),
        ensures
            r is Ok <==> self.pos == self.items@.len(),
            r matches Err(e) ==> e.spans@.len() == 0 && e.kind is Trailing
                && e.kind->Trailing_0@ == self.rest().map_values(|p: Pair<'p>| p.rule),
    {
        let mut rules: Vec<Rule> = Vec::new();
        let mut i: usize = self.pos;
        while i < self.items.len()
            invariant
                self.wf(),
                self.pos <= i <= self.items@.len(),
                rules@ == self.items@.subrange(self.pos as int, i as int).map_values(|p: Pair<'p>| p.rule),
            decreases self.items@.len() - i,
        {
            rules.push(self.items[i].rule);
            i = i + 1;
            assert(rules@ =~= self.items@.subrange(self.pos as int, i as int).map_values(|p: Pair<'p>| p.rule));
        }
        match Error::trailing(rules) {
            Some(e) => Err(e),
            None => Ok(()),
        }
    }
}

/// Where a match stands in the source.
pub open spec fn location_of(p: Pair) -> Location {
    Location { rule: p.rule, start: p.start, end: p.end }
}

/// Ends the parse of the inner matches of `pair`. A hard failure is annotated with `pair`'s
/// rule and span. Matches left over, or a soft failure inside `pair` (which is there, so what
/// it holds is malformed), become a hard `Trailing` failure that lists the rules not used.
fn leave<'r, 'p, T>(pair: &'r Pair<'p>, inner: &Pairs<'r, 'p>, out: Result<T, Error>) -> (r: Result<T, Error>)
    requires
        inner.wf(),
    ensures
        r is Err ==> !(r->Err_0.kind is NoMatch),
        out is Ok && inner.pos == inner.items@.len() ==> r == out,
        ((out is Ok && inner.pos < inner.items@.len()) || (out is Err && out->Err_0.kind is NoMatch)) ==> {
            &&& r is Err
            &&& r->Err_0.kind is Trailing
            &&& r->Err_0.kind->Trailing_0@ == inner.rest().map_values(|p: Pair<'p>| p.rule)
            &&& r->Err_0.spans@ == if out is Ok {
                seq![location_of(*pair)]
            } else {
                out->Err_0.spans@.push(location_of(*pair))
            }
        },
        out is Err && !(out->Err_0.kind is NoMatch) ==> r is Err && r->Err_0.kind == out->Err_0.kind
            && r->Err_0.spans@ == out->Err_0.spans@.push(location_of(*pair)),
{
    match out {
        Ok(v) => match inner.assert_empty() {
            Ok(()) => Ok(v),
            Err(e) => {
                let r = e.annotate(pair.rule, pair.start, pair.end);
                assert(r.spans@ =~= seq![location_of(*pair)]);
                Err(r)
            },
        },
        Err(e) => if e.is_no_match() {
            let rules = match inner.assert_empty() {
                Err(left) => match left.kind {
                    ErrorKind::Trailing(rules) => rules,
                    _ => Vec::new(),
                },
                Ok(()) => Vec::new(),
            };
            assert(rules@ =~= inner.rest().map_values(|p: Pair<'p>| p.rule));
            Err(Error { spans: e.spans, kind: ErrorKind::Trailing(rules) }.annotate(pair.rule, pair.start, pair.end))
        } else {
            Err(e.annotate(pair.rule, pair.start, pair.end))
        },
    }
}

/// What an escape sequence stands for, if it is one of the known ones.
pub open spec fn escape_of(s: Seq<char>) -> Option<Seq<char>> {
    if s == "\\n"@ {
        Some("\n"@)
    } else if s == "\\t"@ {
        Some("\t"@)
    } else if s == "\\\\"@ {
        Some("\\"@)
    } else if s == "\\#"@ {
        Some("#"@)
    } else if s == "\\{"@ {
        Some("{"@)
    } else if s == "\\}"@ {
        Some("}"@)
    } else {
        None
    }
}

/// The escape table: each known sequence decodes to the one character that it names.
pub proof fn lemma_escape_table()
    ensures
        escape_of("\\n"@) == Some("\n"@),
        escape_of("\\t"@) == Some("\t"@),
        escape_of("\\\\"@) == Some("\\"@),
        escape_of("\\#"@) == Some("#"@),
        escape_of("\\{"@) == Some("{"@),
        escape_of("\\}"@) == Some("}"@),
        "\n"@.len() == 1 && "\n"@[0] == '\n',
        "\t"@.len() == 1 && "\t"@[0] == '\t',
        "\\"@.len() == 1 && "\\"@[0] == '\\',
{
    reveal_strlit("\\n");
    reveal_strlit("\\t");
    reveal_strlit("\\\\");
    reveal_strlit("\\#");
    reveal_strlit("\\{");
    reveal_strlit("\\}");
    reveal_strlit("\n");
    reveal_strlit("\t");
    reveal_strlit("\\");
    assert("\\t"@[1] != "\\n"@[1]);
    assert("\\\\"@[1] != "\\n"@[1] && "\\\\"@[1] != "\\t"@[1]);
    assert("\\#"@[1] != "\\n"@[1] && "\\#"@[1] != "\\t"@[1] && "\\#"@[1] != "\\\\"@[1]);
    assert("\\{"@[1] != "\\n"@[1] && "\\{"@[1] != "\\t"@[1] && "\\{"@[1] != "\\\\"@[1] && "\\{"@[1] != "\\#"@[1]);
    assert("\\}"@[1] != "\\n"@[1] && "\\}"@[1] != "\\t"@[1] && "\\}"@[1] != "\\\\"@[1] && "\\}"@[1] != "\\#"@[1]
        && "\\}"@[1] != "\\{"@[1]);
}

/// Decodes the escape sequence `s`; any but the known ones is a hard failure.
pub fn parse_escape(s: &str) -> (r: Result<Text<'static>, Error>)
    ensures
        match escape_of(s@) {
            Some(c) => r is Ok && r->Ok_0@ == c,
            None => r is Err && r->Err_0.spans@.len() == 0 && r->Err_0.kind is InvalidEscape
                && r->Err_0.kind->InvalidEscape_0@ == s@,
        },
{
    if str_eq(s, "\\n") {
        Ok(Text::new("\n"))
    } else if str_eq(s, "\\t") {
        Ok(Text::new("\t"))
    } else if str_eq(s, "\\\\") {
        Ok(Text::new("\\"))
    } else if str_eq(s, "\\#") {
        Ok(Text::new("#"))
    } else if str_eq(s, "\\{") {
        Ok(Text::new("{"))
    } else if str_eq(s, "\\}") {
        Ok(Text::new("}"))
    } else {
        Err(Error::new(ErrorKind::InvalidEscape(s.to_owned())))
    }
}

/// Whether matches of `rule` are pieces of text.
pub open spec fn is_text_atom(rule: Rule) -> bool {
    rule == Rule::PlainText || rule == Rule::EscapedPlainText || rule == Rule::PlainQuotedText
}

/// The characters that a piece of text stands for.
pub open spec fn atom_chars(p: Pair) -> Seq<char> {
    if p.rule == Rule::EscapedPlainText {
        match escape_of(p.text@) {
            Some(c) => c,
            None => Seq::empty(),
        }
    } else {
        p.text@
    }
}

/// The characters of a run of pieces of text, one after the other.
pub open spec fn run_chars(ps: Seq<Pair>) -> Seq<char>
    decreases ps.len(),
{
    if ps.len() == 0 {
        Seq::empty()
    } else {
        run_chars(ps.drop_last()) + atom_chars(ps.last())
    }
}

/// Whether `p` is a piece of text whose escape, if it is one, is a known one.
pub open spec fn atom_form(p: Pair, strict: bool) -> bool {
    is_text_atom(p.rule) && (strict && p.rule == Rule::EscapedPlainText ==> escape_of(p.text@) is Some)
}

/// Whether the matches of `ps` from `from` up to `i` are all pieces of text.
pub open spec fn atoms_upto(ps: Seq<Pair>, from: int, i: int) -> bool {
    forall|j: int| from <= j <= i ==> is_text_atom(#[trigger] ps[j].rule)
}

/// Whether every piece of text in the run that starts at `from` decodes.
pub open spec fn run_ok(ps: Seq<Pair>, from: int) -> bool {
    forall|i: int| from <= i < ps.len() && #[trigger] atoms_upto(ps, from, i) ==> atom_ok(ps[i])
}

/// Whether `p` is a match of `rule` that holds a run of pieces of text that decode.
pub open spec fn text_block_form(p: Pair, rule: Rule, strict: bool) -> bool {
    &&& p.rule == rule
    &&& p.inner@.len() > 0
    &&& forall|i: int| 0 <= i < p.inner@.len() ==> atom_form(#[trigger] p.inner@[i], strict)
}

/// Whether `p` is a well-formed property: a key, then its value if it has one.
pub open spec fn prop_form(p: Pair, rule: Rule, value_rule: Rule, strict: bool) -> bool {
    &&& p.rule == rule
    &&& p.inner@.len() >= 1
    &&& p.inner@[0].rule == Rule::Key
    &&& p.inner@.len() == 1 || (p.inner@.len() == 2 && text_block_form(p.inner@[1], value_rule, strict))
}

/// Whether `p` is a well-formed set of properties, of a tag or of a document header.
pub open spec fn props_form(p: Pair, strict: bool) -> bool {
    ||| p.rule == Rule::Props && forall|i: int| 0 <= i < p.inner@.len()
            ==> prop_form(#[trigger] p.inner@[i], Rule::Prop, Rule::QuotedText, strict)
    ||| p.rule == Rule::DocumentProps && forall|i: int| 0 <= i < p.inner@.len()
            ==> prop_form(#[trigger] p.inner@[i], Rule::DocumentProp, Rule::DocumentPropValue, strict)
}

/// Where the children of a tag start: after its key, and after its properties if it has any.
pub open spec fn after_head(inner: Seq<Pair>) -> int {
    if inner.len() > 1 && is_props_rule(inner[1].rule) {
        2
    } else {
        1
    }
}

/// Whether a tag's matches start with a key, then well-formed properties if any.
pub open spec fn head_form(inner: Seq<Pair>, strict: bool) -> bool {
    &&& inner.len() >= 1
    &&& inner[0].rule == Rule::Key
    &&& after_head(inner) == 2 ==> props_form(inner[1], strict)
}

/// Whether `p` is a well-formed inline item: a soft break, an inline tag, or a piece of text.
pub open spec fn inline_form(p: Pair, strict: bool) -> bool
    decreases p,
{
    if p.rule == Rule::SoftBreak {
        p.inner@.len() == 0
    } else if p.rule == Rule::InlineTag {
        &&& head_form(p.inner@, strict)
        &&& after_head(p.inner@) == p.inner@.len() || (after_head(p.inner@) + 1 == p.inner@.len()
            && p.inner@[after_head(p.inner@)].rule == Rule::Paragraph
            && inlines_form(p.inner@[after_head(p.inner@)].inner@, strict))
    } else {
        atom_form(p, strict)
    }
}

/// Whether every match of `ps` is a well-formed inline item.
pub open spec fn inlines_form(ps: Seq<Pair>, strict: bool) -> bool
    decreases ps,
{
    forall|i: int| 0 <= i < ps.len() ==> inline_form(#[trigger] ps[i], strict)
}

/// Whether a match of `rule` may start an inline item.
pub open spec fn starts_inline(rule: Rule) -> bool {
    rule == Rule::SoftBreak || rule == Rule::InlineTag || is_text_atom(rule)
}

/// Whether a match of `rule` may start a block.
pub open spec fn starts_block(rule: Rule) -> bool {
    rule == Rule::BlockTag || rule == Rule::LiteralTag || rule == Rule::Paragraph
}

/// Whether `p` is a well-formed block: a tag of blocks, a literal tag, or a paragraph.
pub open spec fn block_form(p: Pair, strict: bool) -> bool
    decreases p,
{
    if p.rule == Rule::BlockTag {
        &&& head_form(p.inner@, strict)
        &&& forall|i: int| after_head(p.inner@) <= i < p.inner@.len() ==> block_form(#[trigger] p.inner@[i], strict)
    } else if p.rule == Rule::LiteralTag {
        &&& head_form(p.inner@, strict)
        &&& after_head(p.inner@) == p.inner@.len() || (after_head(p.inner@) + 1 == p.inner@.len()
            && p.inner@[after_head(p.inner@)].rule == Rule::Literal)
    } else if p.rule == Rule::Paragraph {
        inlines_form(p.inner@, strict)
    } else {
        false
    }
}

/// Whether the matches of `ps` from `from` up to `to` are well-formed blocks, and no block
/// starts at `to`.
pub open spec fn blocks_run_form(ps: Seq<Pair>, from: int, to: int, strict: bool) -> bool {
    &&& from <= to <= ps.len()
    &&& forall|i: int| from <= i < to ==> block_form(#[trigger] ps[i], strict)
    &&& to == ps.len() || !starts_block(ps[to].rule)
}

/// Whether `p` is a well-formed document header: a title if any, then properties if any.
pub open spec fn header_form(p: Pair, strict: bool) -> bool {
    let t: int = if p.inner@.len() > 0 && p.inner@[0].rule == Rule::Title { 1 } else { 0 };
    &&& p.rule == Rule::Header
    &&& t == 1 ==> text_block_form(p.inner@[0], Rule::Title, strict)
    &&& t == p.inner@.len() || (t + 1 == p.inner@.len() && props_form(p.inner@[t], strict))
}

/// Whether `p` is a well-formed document: a header if any, blocks, and the end of the input.
pub open spec fn document_form(p: Pair, strict: bool) -> bool {
    let h: int = if p.inner@.len() > 0 && p.inner@[0].rule == Rule::Header { 1 } else { 0 };
    &&& p.rule == Rule::Document
    &&& p.inner@.len() >= h + 1
    &&& p.inner@.last().rule == Rule::EOI
    &&& h == 1 ==> header_form(p.inner@[0], strict)
    &&& forall|i: int| h <= i < p.inner@.len() - 1 ==> block_form(#[trigger] p.inner@[i], strict)
}

/// The well-formed shapes below, with `strict` asking also that every escape be a known one:
/// without it, a tree of the right shape whose only fault is an unknown escape qualifies.
pub open spec fn atom_ok(p: Pair) -> bool {
    atom_form(p, true)
}

pub open spec fn text_block_ok(p: Pair, rule: Rule) -> bool {
    text_block_form(p, rule, true)
}

pub open spec fn prop_ok(p: Pair, rule: Rule, value_rule: Rule) -> bool {
    prop_form(p, rule, value_rule, true)
}

pub open spec fn props_ok(p: Pair) -> bool {
    props_form(p, true)
}

pub open spec fn head_ok(inner: Seq<Pair>) -> bool {
    head_form(inner, true)
}

pub open spec fn inline_ok(p: Pair) -> bool {
    inline_form(p, true)
}

pub open spec fn inlines_ok(ps: Seq<Pair>) -> bool {
    inlines_form(ps, true)
}

pub open spec fn block_ok(p: Pair) -> bool {
    block_form(p, true)
}

pub open spec fn blocks_run(ps: Seq<Pair>, from: int, to: int) -> bool {
    blocks_run_form(ps, from, to, true)
}

pub open spec fn header_ok(p: Pair) -> bool {
    header_form(p, true)
}

pub open spec fn document_ok(p: Pair) -> bool {
    document_form(p, true)
}

/// The flags that a list of well-formed properties sets: the keys given without a value.
pub open spec fn flags_of(ps: Seq<Pair>) -> Set<KeyView> {
    Set::new(|k: KeyView| exists|i: int| 0 <= i < ps.len() && (#[trigger] ps[i]).inner@.len() == 1
        && k == (ps[i].inner@[0].text@, None::<u64>))
}

/// The values that a list of well-formed properties gives, a later one for a key replacing an
/// earlier one.
pub open spec fn values_of(ps: Seq<Pair>) -> Map<KeyView, Seq<char>>
    decreases ps.len(),
{
    if ps.len() == 0 {
        Map::empty()
    } else if ps.last().inner@.len() == 2 {
        values_of(ps.drop_last()).insert((ps.last().inner@[0].text@, None::<u64>), run_chars(ps.last().inner@[1].inner@))
    } else {
        values_of(ps.drop_last())
    }
}

/// Whether `props` is what the well-formed set of properties `p` stands for.
pub open spec fn props_denote(p: Pair, props: PropSet) -> bool {
    props.flags() == flags_of(p.inner@) && props.values() == values_of(p.inner@)
}

/// Whether `name` and `props` are what the head of a tag's matches stands for.
pub open spec fn head_denotes(inner: Seq<Pair>, name: Key, props: PropSet) -> bool {
    &&& name@ == (inner[0].text@, None::<u64>)
    &&& if after_head(inner) == 2 {
        props_denote(inner[1], props)
    } else {
        props.flags().is_empty() && props.values().is_empty()
    }
}

/// The number of pieces of text at the end of `ps`.
pub open spec fn trailing_atoms(ps: Seq<Pair>) -> int
    decreases ps.len(),
{
    if ps.len() > 0 && is_text_atom(ps.last().rule) {
        1 + trailing_atoms(ps.drop_last())
    } else {
        0
    }
}

/// Whether `item` is what the well-formed soft break or inline tag `p` stands for.
pub open spec fn inline_denotes(p: Pair, item: Inline) -> bool
    decreases p,
{
    if p.rule == Rule::SoftBreak {
        item is SoftBreak
    } else if p.rule == Rule::InlineTag {
        &&& item is Tag
        &&& head_denotes(p.inner@, item->Tag_0.name, item->Tag_0.props)
        &&& if after_head(p.inner@) < p.inner@.len() {
            inlines_denote(p.inner@[after_head(p.inner@)].inner@, item->Tag_0.content@)
        } else {
            item->Tag_0.content@.len() == 0
        }
    } else {
        false
    }
}

/// Whether `items` are what the well-formed inline matches `ps` stand for: each soft break
/// or inline tag one item, and each run of pieces of text one text of their characters.
pub open spec fn inlines_denote(ps: Seq<Pair>, items: Seq<Inline>) -> bool
    decreases ps,
{
    if ps.len() == 0 {
        items.len() == 0
    } else if items.len() == 0 {
        false
    } else if is_text_atom(ps.last().rule) {
        let n = trailing_atoms(ps);
        &&& 1 <= n <= ps.len()
        &&& items.last() is Text
        &&& items.last()->Text_0@ == run_chars(ps.subrange(ps.len() - n, ps.len() as int))
        &&& inlines_denote(ps.subrange(0, ps.len() - n), items.drop_last())
    } else {
        inline_denotes(ps.last(), items.last()) && inlines_denote(ps.drop_last(), items.drop_last())
    }
}

/// Whether `b` is what the well-formed block `p` stands for.
pub open spec fn block_denotes(p: Pair, b: Block) -> bool
    decreases p,
{
    let s = after_head(p.inner@);
    if p.rule == Rule::BlockTag {
        &&& b is Tag
        &&& head_denotes(p.inner@, b->Tag_0.name, b->Tag_0.props)
        &&& b->Tag_0.content@.len() == p.inner@.len() - s
        &&& forall|i: int| 0 <= i < b->Tag_0.content@.len()
            ==> block_denotes(p.inner@[s + i], #[trigger] b->Tag_0.content@[i])
    } else if p.rule == Rule::LiteralTag {
        &&& b is Tag
        &&& head_denotes(p.inner@, b->Tag_0.name, b->Tag_0.props)
        &&& b->Tag_0.content@.len() == 1
        &&& b->Tag_0.content@[0] is Literal
        &&& b->Tag_0.content@[0]->Literal_0.text@ == if s < p.inner@.len() {
            p.inner@[s].text@
        } else {
            Seq::empty()
        }
    } else if p.rule == Rule::Paragraph {
        b is Content && inlines_denote(p.inner@, b->Content_0@)
    } else {
        false
    }
}

/// Whether `meta` is what the well-formed header `p` stands for.
pub open spec fn header_denotes(p: Pair, meta: Meta) -> bool {
    let t: int = if p.inner@.len() > 0 && p.inner@[0].rule == Rule::Title { 1 } else { 0 };
    &&& meta.title@ == if t == 1 { run_chars(p.inner@[0].inner@) } else { Seq::empty() }
    &&& if t < p.inner@.len() {
        props_denote(p.inner@[t], meta.props)
    } else {
        meta.props.flags().is_empty() && meta.props.values().is_empty()
    }
}

/// Whether `d` is what the well-formed document `p` stands for.
pub open spec fn document_denotes(p: Pair, d: Document) -> bool {
    let h: int = if p.inner@.len() > 0 && p.inner@[0].rule == Rule::Header { 1 } else { 0 };
    &&& if h == 1 {
        header_denotes(p.inner@[0], d.meta)
    } else {
        d.meta.title@.len() == 0 && d.meta.props.flags().is_empty() && d.meta.props.values().is_empty()
    }
    &&& d.content@.len() == p.inner@.len() - 1 - h
    &&& forall|i: int| 0 <= i < d.content@.len() ==> block_denotes(p.inner@[h + i], #[trigger] d.content@[i])
}

proof fn lemma_trailing_atoms(ps: Seq<Pair>, k: int)
    requires
        0 <= k <= ps.len(),
        forall|i: int| k <= i < ps.len() ==> is_text_atom(#[trigger] ps[i].rule),
        k == 0 || !is_text_atom(ps[k - 1].rule),
    ensures
        trailing_atoms(ps) == ps.len() - k,
    decreases ps.len(),
{
    if ps.len() > k {
        let init = ps.drop_last();
        assert forall|i: int| k <= i < init.len() implies is_text_atom(#[trigger] init[i].rule) by {
            assert(init[i] == ps[i]);
        }
        if k > 0 {
            assert(init[k - 1] == ps[k - 1]);
        }
        lemma_trailing_atoms(init, k);
    }
}

fn is_text_rule(rule: Rule) -> (r: bool)
    ensures
        r == is_text_atom(rule),
{
    match rule {
        Rule::PlainText | Rule::EscapedPlainText | Rule::PlainQuotedText => true,
        _ => false,
    }
}

/// Parses a run of pieces of text (plain, quoted, or escapes) into one text.
fn parse_text<'r, 'p>(pairs: &mut Pairs<'r, 'p>) -> (r: Result<Text<'p>, Error>)
    requires
        old(pairs).wf(),
    ensures
        final(pairs).follows(*old(pairs)),
        match r {
            Ok(t) => {
                &&& old(pairs).pos < final(pairs).pos
                &&& forall|i: int| old(pairs).pos <= i < final(pairs).pos ==> is_text_atom(#[trigger] old(pairs).items@[i].rule)
                &&& final(pairs).pos == final(pairs).items@.len() || !is_text_atom(final(pairs).items@[final(pairs).pos as int].rule)
                &&& t@ == run_chars(old(pairs).items@.subrange(old(pairs).pos as int, final(pairs).pos as int))
            },
            Err(e) => (e.kind is NoMatch) == (old(pairs).pos == old(pairs).items@.len()
                || !is_text_atom(old(pairs).items@[old(pairs).pos as int].rule)),
        },
        r is Ok ==> forall|i: int| old(pairs).pos <= i < final(pairs).pos ==> atom_ok(#[trigger] old(pairs).items@[i]),
        old(pairs).pos < old(pairs).items@.len() && is_text_atom(old(pairs).items@[old(pairs).pos as int].rule)
            && run_ok(old(pairs).items@, old(pairs).pos as int) ==> r is Ok,
        r is Err && !(r->Err_0.kind is NoMatch) ==> exists|i: int| {
            &&& old(pairs).pos <= i < old(pairs).items@.len()
            &&& #[trigger] atoms_upto(old(pairs).items@, old(pairs).pos as int, i)
            &&& old(pairs).items@[i].rule == Rule::EscapedPlainText
            &&& escape_of(old(pairs).items@[i].text@) is None
            &&& r->Err_0.kind is InvalidEscape
            &&& r->Err_0.kind->InvalidEscape_0@ == old(pairs).items@[i].text@
            &&& r->Err_0.spans@ == seq![location_of(old(pairs).items@[i])]
        },
        old(pairs).pos == old(pairs).items@.len() || !is_text_atom(old(pairs).items@[old(pairs).pos as int].rule) ==> r is Err && r->Err_0.kind is NoMatch && final(pairs).pos == old(pairs).pos,
        r is Ok ==> atom_ok(old(pairs).items@[old(pairs).pos as int]),
        r is Err && r->Err_0.kind is InvalidEscape ==> r->Err_0.spans@.len() > 0 && r->Err_0.spans@[0].rule == Rule::EscapedPlainText,
        old(pairs).pos < old(pairs).items@.len() && is_text_atom(old(pairs).items@[old(pairs).pos as int].rule) ==> (r is Ok || r->Err_0.kind is InvalidEscape),
{
    let ghost start = pairs.pos;
    let mut parts: Vec<Text<'p>> = Vec::new();
    while pairs.pos < pairs.items.len() && is_text_rule(pairs.items[pairs.pos].rule)
        invariant
            pairs.follows(*old(pairs)),
            start == old(pairs).pos,
            parts@.len() == pairs.pos - start,
            forall|i: int| start <= i < pairs.pos ==> is_text_atom(#[trigger] pairs.items@[i].rule),
            forall|i: int| start <= i < pairs.pos ==> atom_ok(#[trigger] pairs.items@[i]),
            crate::text::concat_views(parts@) == run_chars(pairs.items@.subrange(start as int, pairs.pos as int)),
        decreases pairs.items@.len() - pairs.pos,
    {
        let pair = &pairs.items[pairs.pos];
        let part = if pair.rule == Rule::EscapedPlainText {
            match parse_escape(pair.text) {
                Ok(t) => t,
                Err(e) => {
                    let e = e.annotate(pair.rule, pair.start, pair.end);
                    proof {
                        assert(atoms_upto(old(pairs).items@, start as int, pairs.pos as int));
                        assert(e.spans@ =~= seq![location_of(old(pairs).items@[pairs.pos as int])]);
                    }
                    return Err(e);
                },
            }
        } else {
            Text::new(pair.text)
        };
        let ghost before = parts@;
        parts.push(part);
        proof {
            let sub = pairs.items@.subrange(start as int, pairs.pos + 1);
            assert(sub.drop_last() =~= pairs.items@.subrange(start as int, pairs.pos as int));
            assert(parts@.drop_last() =~= before);
        }
        pairs.pos = pairs.pos + 1;
    }
    if parts.len() == 0 {
        return Err(Error::new(ErrorKind::NoMatch));
    }
    Ok(Text::concat(parts))
}

/// Parses a key: interns the text of a match of rule `Key`.
fn parse_key<'r, 'p>(pairs: &mut Pairs<'r, 'p>) -> (r: Result<Key, Error>)
    requires
        old(pairs).wf(),
    ensures
        final(pairs).follows(*old(pairs)),
        match r {
            Ok(k) => final(pairs).pos == old(pairs).pos + 1 && old(pairs).items@[old(pairs).pos as int].rule == Rule::Key
                && k@ == (old(pairs).items@[old(pairs).pos as int].text@, None::<u64>),
            Err(e) => e.kind is NoMatch && final(pairs).pos == old(pairs).pos,
        },
        old(pairs).pos < old(pairs).items@.len() && old(pairs).items@[old(pairs).pos as int].rule == Rule::Key ==> r is Ok,
        old(pairs).pos < old(pairs).items@.len() && old(pairs).items@[old(pairs).pos as int].rule == Rule::Key ==> r is Ok,
{
    let pair = pairs.rule(Rule::Key)?;
    Ok(Key::new(pair.text))
}

/// Parses a literal: the text of a match of rule `Literal`, exactly as it stands in the source.
fn parse_literal<'r, 'p>(pairs: &mut Pairs<'r, 'p>) -> (r: Result<Literal<'p>, Error>)
    requires
        old(pairs).wf(),
    ensures
        final(pairs).follows(*old(pairs)),
        match r {
            Ok(l) => final(pairs).pos == old(pairs).pos + 1
                && old(pairs).items@[old(pairs).pos as int].rule == Rule::Literal
                && l.text@ == old(pairs).items@[old(pairs).pos as int].text@ && !l.text.is_owned(),
            Err(e) => e.kind is NoMatch && final(pairs).pos == old(pairs).pos,
        },
        old(pairs).pos < old(pairs).items@.len() && old(pairs).items@[old(pairs).pos as int].rule == Rule::Literal ==> r is Ok,
{
    let pair = pairs.rule(Rule::Literal)?;
    Ok(Literal::new(Text::new(pair.text)))
}

/// Parses the text inside a match of rule `rule`.
fn parse_text_block<'r, 'p>(pairs: &mut Pairs<'r, 'p>, rule: Rule) -> (r: Result<Text<'p>, Error>)
    requires
        old(pairs).wf(),
    ensures
        final(pairs).follows(*old(pairs)),
        r is Ok ==> final(pairs).pos == old(pairs).pos + 1 && old(pairs).items@[old(pairs).pos as int].rule == rule,
        old(pairs).pos < old(pairs).items@.len() && text_block_ok(old(pairs).items@[old(pairs).pos as int], rule) ==> r is Ok,
        old(pairs).pos == old(pairs).items@.len() || old(pairs).items@[old(pairs).pos as int].rule != rule ==> r is Err && r->Err_0.kind is NoMatch && final(pairs).pos == old(pairs).pos,
        old(pairs).pos < old(pairs).items@.len() && text_block_ok(old(pairs).items@[old(pairs).pos as int], rule) ==> r->Ok_0@ == run_chars(old(pairs).items@[old(pairs).pos as int].inner@),
        old(pairs).pos < old(pairs).items@.len() && old(pairs).items@[old(pairs).pos as int].rule == rule ==> (r is Err ==> !(r->Err_0.kind is NoMatch)),
        r is Ok ==> text_block_ok(old(pairs).items@[old(pairs).pos as int], rule),
        r is Err && r->Err_0.kind is InvalidEscape ==> r->Err_0.spans@.len() > 0 && r->Err_0.spans@[0].rule == Rule::EscapedPlainText
            && r->Err_0.spans@.last() == location_of(old(pairs).items@[old(pairs).pos as int]),
        old(pairs).pos < old(pairs).items@.len() && text_block_form(old(pairs).items@[old(pairs).pos as int], rule, false) ==> (r is Ok || r->Err_0.kind is InvalidEscape),
{
    let pair = pairs.rule(rule)?;
    let mut inner = Pairs::new(pair.inner.as_slice());
    let out = parse_text(&mut inner);
    assert(inner.items@.subrange(0, inner.items@.len() as int) =~= pair.inner@);
    leave(pair, &inner, out)
}

/// Whether matches of `rule` hold a set of properties.
pub open spec fn is_props_rule(rule: Rule) -> bool {
    rule == Rule::Props || rule == Rule::DocumentProps
}

/// Parses one property, `key` or `key = value`, inside a match of rule `rule` whose value
/// stands in a match of rule `value_rule`; and records it in `props`.
fn parse_prop<'r, 'p>(pairs: &mut Pairs<'r, 'p>, props: &mut PropSet<'p>, rule: Rule, value_rule: Rule) -> (r: Result<(), Error>)
    requires
        old(pairs).wf(),
    ensures
        final(pairs).follows(*old(pairs)),
        r is Ok ==> final(pairs).pos == old(pairs).pos + 1,
        old(pairs).pos < old(pairs).items@.len() && prop_ok(old(pairs).items@[old(pairs).pos as int], rule, value_rule) ==> r is Ok,
        old(pairs).pos == old(pairs).items@.len() || old(pairs).items@[old(pairs).pos as int].rule != rule ==> r is Err && r->Err_0.kind is NoMatch && final(pairs).pos == old(pairs).pos,
        old(pairs).pos < old(pairs).items@.len() && prop_ok(old(pairs).items@[old(pairs).pos as int], rule, value_rule) && old(pairs).items@[old(pairs).pos as int].inner@.len() == 1
            ==> final(props).flags() == old(props).flags().insert((old(pairs).items@[old(pairs).pos as int].inner@[0].text@, None::<u64>))
                && final(props).values() == old(props).values(),
        old(pairs).pos < old(pairs).items@.len() && prop_ok(old(pairs).items@[old(pairs).pos as int], rule, value_rule) && old(pairs).items@[old(pairs).pos as int].inner@.len() == 2
            ==> final(props).flags() == old(props).flags() && final(props).values()
                == old(props).values().insert((old(pairs).items@[old(pairs).pos as int].inner@[0].text@, None::<u64>), run_chars(old(pairs).items@[old(pairs).pos as int].inner@[1].inner@)),
        old(pairs).pos == old(pairs).items@.len() || old(pairs).items@[old(pairs).pos as int].rule != rule ==> *final(props) == *old(props),
        old(pairs).pos < old(pairs).items@.len() && old(pairs).items@[old(pairs).pos as int].rule == rule ==> (r is Err ==> !(r->Err_0.kind is NoMatch)),
        r is Ok ==> prop_ok(old(pairs).items@[old(pairs).pos as int], rule, value_rule),
        r is Err && r->Err_0.kind is InvalidEscape ==> r->Err_0.spans@.len() > 0 && r->Err_0.spans@[0].rule == Rule::EscapedPlainText
            && r->Err_0.spans@.last() == location_of(old(pairs).items@[old(pairs).pos as int]),
        old(pairs).pos < old(pairs).items@.len() && prop_form(old(pairs).items@[old(pairs).pos as int], rule, value_rule, false) ==> (r is Ok || r->Err_0.kind is InvalidEscape),
{
    let pair = pairs.rule(rule)?;
    let mut inner = Pairs::new(pair.inner.as_slice());
    let out = match parse_key(&mut inner) {
        Ok(key) => match recover(parse_text_block(&mut inner, value_rule)) {
            Ok(Some(value)) => {
                props.put(key, value);
                Ok(())
            },
            Ok(None) => {
                props.set(key);
                Ok(())
            },
            Err(e) => Err(e),
        },
        Err(e) => Err(e),
    };
    leave(pair, &inner, out)
}

/// Parses a set of properties inside a match of rule `rule`, each in a match of rule `prop_rule`.
fn parse_prop_list<'r, 'p>(pairs: &mut Pairs<'r, 'p>, rule: Rule, prop_rule: Rule, value_rule: Rule) -> (r: Result<PropSet<'p>, Error>)
    requires
        old(pairs).wf(),
    ensures
        final(pairs).follows(*old(pairs)),
        r is Ok ==> final(pairs).pos == old(pairs).pos + 1,
        final(pairs).pos == old(pairs).pos || (final(pairs).pos == old(pairs).pos + 1
            && old(pairs).items@[old(pairs).pos as int].rule == rule),
        old(pairs).pos < old(pairs).items@.len() && old(pairs).items@[old(pairs).pos as int].rule == rule
            && (forall|i: int| 0 <= i < old(pairs).items@[old(pairs).pos as int].inner@.len() ==> prop_ok(#[trigger] old(pairs).items@[old(pairs).pos as int].inner@[i], prop_rule, value_rule))
            ==> r is Ok,
        old(pairs).pos == old(pairs).items@.len() || old(pairs).items@[old(pairs).pos as int].rule != rule ==> r is Err && r->Err_0.kind is NoMatch && final(pairs).pos == old(pairs).pos,
        old(pairs).pos < old(pairs).items@.len() && old(pairs).items@[old(pairs).pos as int].rule == rule
            && (forall|i: int| 0 <= i < old(pairs).items@[old(pairs).pos as int].inner@.len() ==> prop_ok(#[trigger] old(pairs).items@[old(pairs).pos as int].inner@[i], prop_rule, value_rule))
            ==> props_denote(old(pairs).items@[old(pairs).pos as int], r->Ok_0),
        old(pairs).pos < old(pairs).items@.len() && old(pairs).items@[old(pairs).pos as int].rule == rule ==> (r is Err ==> !(r->Err_0.kind is NoMatch)),
        r is Ok ==> forall|i: int| 0 <= i < old(pairs).items@[old(pairs).pos as int].inner@.len() ==> prop_ok(#[trigger] old(pairs).items@[old(pairs).pos as int].inner@[i], prop_rule, value_rule),
        r is Err && r->Err_0.kind is InvalidEscape ==> r->Err_0.spans@.len() > 0 && r->Err_0.spans@[0].rule == Rule::EscapedPlainText
            && r->Err_0.spans@.last() == location_of(old(pairs).items@[old(pairs).pos as int]),
        old(pairs).pos < old(pairs).items@.len() && old(pairs).items@[old(pairs).pos as int].rule == rule
            && (forall|i: int| 0 <= i < old(pairs).items@[old(pairs).pos as int].inner@.len() ==> prop_form(#[trigger] old(pairs).items@[old(pairs).pos as int].inner@[i], prop_rule, value_rule, false))
            ==> (r is Ok || r->Err_0.kind is InvalidEscape),
{
    let pair = pairs.rule(rule)?;
    let mut inner = Pairs::new(pair.inner.as_slice());
    let mut props = PropSet::new();
    let mut out: Result<(), Error> = Ok(());
    let ghost all_ok = forall|i: int| 0 <= i < pair.inner@.len() ==> prop_ok(#[trigger] pair.inner@[i], prop_rule, value_rule);
    let ghost all_shaped = forall|i: int| 0 <= i < pair.inner@.len() ==> prop_form(#[trigger] pair.inner@[i], prop_rule, value_rule, false);
    assert(props.flags() =~= flags_of(pair.inner@.subrange(0, 0)));
    assert(props.values() =~= values_of(pair.inner@.subrange(0, 0)));
    loop
        invariant_except_break
            out is Ok,
            forall|i: int| 0 <= i < inner.pos ==> prop_ok(#[trigger] pair.inner@[i], prop_rule, value_rule),
        invariant
            inner.wf(),
            inner.items@ == pair.inner@,
            all_ok == forall|i: int| 0 <= i < pair.inner@.len() ==> prop_ok(#[trigger] pair.inner@[i], prop_rule, value_rule),
            all_shaped == forall|i: int| 0 <= i < pair.inner@.len() ==> prop_form(#[trigger] pair.inner@[i], prop_rule, value_rule, false),
            all_ok ==> props.flags() == flags_of(pair.inner@.subrange(0, inner.pos as int))
                && props.values() == values_of(pair.inner@.subrange(0, inner.pos as int)),
        ensures
            out is Ok ==> forall|i: int| 0 <= i < inner.pos ==> prop_ok(#[trigger] pair.inner@[i], prop_rule, value_rule),
            out is Err && out->Err_0.kind is InvalidEscape ==> out->Err_0.spans@.len() > 0
                && out->Err_0.spans@[0].rule == Rule::EscapedPlainText,
            out is Ok ==> inner.pos == inner.items@.len() || inner.items@[inner.pos as int].rule != prop_rule,
            inner.wf(),
            inner.items@ == pair.inner@,
            all_ok ==> out is Ok && inner.pos == inner.items@.len(),
            all_shaped ==> (out is Ok ==> inner.pos == inner.items@.len()) && (out is Err ==> out->Err_0.kind is InvalidEscape),
            all_ok ==> props.flags() == flags_of(pair.inner@.subrange(0, inner.pos as int))
                && props.values() == values_of(pair.inner@.subrange(0, inner.pos as int)),
        decreases inner.items@.len() - inner.pos,
    {
        proof {
            if all_ok && inner.pos < inner.items@.len() {
                assert(prop_ok(inner.items@[inner.pos as int], prop_rule, value_rule));
            }
            if all_shaped && inner.pos < inner.items@.len() {
                assert(prop_form(inner.items@[inner.pos as int], prop_rule, value_rule, false));
            }
        }
        let ghost at = inner.pos as int;
        match recover(parse_prop(&mut inner, &mut props, prop_rule, value_rule)) {
            Ok(Some(())) => {
                proof {
                    if all_ok {
                        let ps = pair.inner@;
                        let sub = ps.subrange(0, at + 1);
                        assert(sub.drop_last() =~= ps.subrange(0, at));
                        assert(sub.last() == ps[at]);
                        assert(prop_ok(ps[at], prop_rule, value_rule));
                        assert forall|k: KeyView| #[trigger] flags_of(sub).contains(k)
                            <==> (flags_of(ps.subrange(0, at)).contains(k)
                                || (ps[at].inner@.len() == 1 && k == (ps[at].inner@[0].text@, None::<u64>))) by {
                            if flags_of(sub).contains(k) {
                                let i = choose|i: int| 0 <= i < sub.len() && (#[trigger] sub[i]).inner@.len() == 1
                                    && k == (sub[i].inner@[0].text@, None::<u64>);
                                if i < at {
                                    assert(ps.subrange(0, at)[i] == sub[i]);
                                }
                            }
                            if flags_of(ps.subrange(0, at)).contains(k) {
                                let i = choose|i: int| 0 <= i < at && (#[trigger] ps.subrange(0, at)[i]).inner@.len() == 1
                                    && k == (ps.subrange(0, at)[i].inner@[0].text@, None::<u64>);
                                assert(sub[i] == ps.subrange(0, at)[i]);
                            }
                            if ps[at].inner@.len() == 1 && k == (ps[at].inner@[0].text@, None::<u64>) {
                                assert(sub[at] == ps[at]);
                            }
                        }
                        assert(props.flags() =~= flags_of(sub));
                    }
                }
            },
            Ok(None) => {
                break;
            },
            Err(e) => {
                out = Err(e);
                break;
            },
        }
    }
    assert(pair.inner@.subrange(0, pair.inner@.len() as int) =~= pair.inner@);
    let out = match out {
        Ok(()) => Ok(props),
        Err(e) => Err(e),
    };
    leave(pair, &inner, out)
}

/// Parses the properties of a tag, or failing that those of a document header.
fn parse_props<'r, 'p>(pairs: &mut Pairs<'r, 'p>) -> (r: Result<PropSet<'p>, Error>)
    requires
        old(pairs).wf(),
    ensures
        final(pairs).follows(*old(pairs)),
        r is Ok ==> old(pairs).pos < final(pairs).pos,
        forall|i: int| old(pairs).pos <= i < final(pairs).pos ==> is_props_rule(#[trigger] old(pairs).items@[i].rule),
        old(pairs).pos < old(pairs).items@.len() && props_ok(old(pairs).items@[old(pairs).pos as int])
            ==> r is Ok && final(pairs).pos == old(pairs).pos + 1,
        old(pairs).pos == old(pairs).items@.len() || !is_props_rule(old(pairs).items@[old(pairs).pos as int].rule) ==> r is Err && r->Err_0.kind is NoMatch && final(pairs).pos == old(pairs).pos,
        old(pairs).pos < old(pairs).items@.len() && props_ok(old(pairs).items@[old(pairs).pos as int]) ==> props_denote(old(pairs).items@[old(pairs).pos as int], r->Ok_0),
        old(pairs).pos < old(pairs).items@.len() && is_props_rule(old(pairs).items@[old(pairs).pos as int].rule) ==> (r is Err ==> !(r->Err_0.kind is NoMatch)),
        r is Ok ==> props_ok(old(pairs).items@[old(pairs).pos as int]),
        r is Err && r->Err_0.kind is InvalidEscape ==> r->Err_0.spans@.len() > 0 && r->Err_0.spans@[0].rule == Rule::EscapedPlainText,
        old(pairs).pos < old(pairs).items@.len() && props_form(old(pairs).items@[old(pairs).pos as int], false) ==> (r is Ok || r->Err_0.kind is InvalidEscape),
{
    match recover(parse_prop_list(pairs, Rule::Props, Rule::Prop, Rule::QuotedText))? {
        Some(props) => Ok(props),
        None => parse_prop_list(pairs, Rule::DocumentProps, Rule::DocumentProp, Rule::DocumentPropValue),
    }
}

/// Properties if they are there, and an empty set if they are not.
fn parse_props_or_empty<'r, 'p>(pairs: &mut Pairs<'r, 'p>) -> (r: Result<PropSet<'p>, Error>)
    requires
        old(pairs).wf(),
    ensures
        final(pairs).follows(*old(pairs)),
        forall|i: int| old(pairs).pos <= i < final(pairs).pos ==> is_props_rule(#[trigger] old(pairs).items@[i].rule),
        old(pairs).pos < old(pairs).items@.len() && props_ok(old(pairs).items@[old(pairs).pos as int]) ==> r is Ok && final(pairs).pos == old(pairs).pos + 1,
        old(pairs).pos == old(pairs).items@.len() || !is_props_rule(old(pairs).items@[old(pairs).pos as int].rule) ==> r is Ok && final(pairs).pos == old(pairs).pos,
        old(pairs).pos < old(pairs).items@.len() && props_ok(old(pairs).items@[old(pairs).pos as int]) ==> props_denote(old(pairs).items@[old(pairs).pos as int], r->Ok_0),
        old(pairs).pos == old(pairs).items@.len() || !is_props_rule(old(pairs).items@[old(pairs).pos as int].rule)
            ==> r->Ok_0.flags().is_empty() && r->Ok_0.values().is_empty(),
        r is Err ==> !(r->Err_0.kind is NoMatch),
        r is Ok ==> (final(pairs).pos == old(pairs).pos + 1 && props_ok(old(pairs).items@[old(pairs).pos as int]))
            || (final(pairs).pos == old(pairs).pos && (old(pairs).pos == old(pairs).items@.len() || !is_props_rule(old(pairs).items@[old(pairs).pos as int].rule))),
        r is Err && r->Err_0.kind is InvalidEscape ==> r->Err_0.spans@.len() > 0 && r->Err_0.spans@[0].rule == Rule::EscapedPlainText,
        (old(pairs).pos < old(pairs).items@.len() && props_form(old(pairs).items@[old(pairs).pos as int], false)) || old(pairs).pos == old(pairs).items@.len() || !is_props_rule(old(pairs).items@[old(pairs).pos as int].rule) ==> (r is Ok || r->Err_0.kind is InvalidEscape),
{
    match recover(parse_props(pairs))? {
        Some(props) => Ok(props),
        None => Ok(PropSet::new()),
    }
}

/// Parses a document header: its title, then its properties.
fn parse_header<'r, 'p>(pairs: &mut Pairs<'r, 'p>) -> (r: Result<Meta<'p>, Error>)
    requires
        old(pairs).wf(),
    ensures
        final(pairs).follows(*old(pairs)),
        r is Ok ==> final(pairs).pos == old(pairs).pos + 1,
        old(pairs).pos < old(pairs).items@.len() && header_ok(old(pairs).items@[old(pairs).pos as int]) ==> r is Ok,
        old(pairs).pos == old(pairs).items@.len() || old(pairs).items@[old(pairs).pos as int].rule != Rule::Header ==> r is Err && r->Err_0.kind is NoMatch && final(pairs).pos == old(pairs).pos,
        old(pairs).pos < old(pairs).items@.len() && header_ok(old(pairs).items@[old(pairs).pos as int]) ==> header_denotes(old(pairs).items@[old(pairs).pos as int], r->Ok_0),
        old(pairs).pos < old(pairs).items@.len() && old(pairs).items@[old(pairs).pos as int].rule == Rule::Header ==> (r is Err ==> !(r->Err_0.kind is NoMatch)),
        r is Ok ==> header_ok(old(pairs).items@[old(pairs).pos as int]),
        r is Err && r->Err_0.kind is InvalidEscape ==> r->Err_0.spans@.len() > 0 && r->Err_0.spans@[0].rule == Rule::EscapedPlainText
            && r->Err_0.spans@.last() == location_of(old(pairs).items@[old(pairs).pos as int]),
        old(pairs).pos < old(pairs).items@.len() && header_form(old(pairs).items@[old(pairs).pos as int], false) ==> (r is Ok || r->Err_0.kind is InvalidEscape),
{
    let pair = pairs.rule(Rule::Header)?;
    let mut inner = Pairs::new(pair.inner.as_slice());
    let out = match recover(parse_text_block(&mut inner, Rule::Title)) {
        Ok(title) => {
            let title = match title {
                Some(t) => t,
                None => Text::default(),
            };
            match parse_props_or_empty(&mut inner) {
                Ok(props) => Ok(Meta::new(title, props)),
                Err(e) => Err(e),
            }
        },
        Err(e) => Err(e),
    };
    leave(pair, &inner, out)
}

/// Parses a soft line break.
fn parse_soft_break<'r, 'p>(pairs: &mut Pairs<'r, 'p>) -> (r: Result<Inline<'p>, Error>)
    requires
        old(pairs).wf(),
    ensures
        final(pairs).follows(*old(pairs)),
        r is Ok ==> final(pairs).pos == old(pairs).pos + 1 && r->Ok_0 is SoftBreak
            && old(pairs).items@[old(pairs).pos as int].rule == Rule::SoftBreak,
        old(pairs).pos < old(pairs).items@.len() && old(pairs).items@[old(pairs).pos as int].rule == Rule::SoftBreak && old(pairs).items@[old(pairs).pos as int].inner@.len() == 0 ==> r is Ok,
        old(pairs).pos == old(pairs).items@.len() || old(pairs).items@[old(pairs).pos as int].rule != Rule::SoftBreak ==> r is Err && r->Err_0.kind is NoMatch && final(pairs).pos == old(pairs).pos,
        old(pairs).pos < old(pairs).items@.len() && old(pairs).items@[old(pairs).pos as int].rule == Rule::SoftBreak ==> (r is Err ==> !(r->Err_0.kind is NoMatch)),
        r is Ok ==> old(pairs).items@[old(pairs).pos as int].inner@.len() == 0,
        r is Err && r->Err_0.kind is InvalidEscape ==> r->Err_0.spans@.len() > 0 && r->Err_0.spans@[0].rule == Rule::EscapedPlainText
            && r->Err_0.spans@.last() == location_of(old(pairs).items@[old(pairs).pos as int]),
{
    let pair = pairs.rule(Rule::SoftBreak)?;
    let inner = Pairs::new(pair.inner.as_slice());
    leave(pair, &inner, Ok(Inline::SoftBreak))
}

/// Parses a sequence of inline items, up to the first position where none stands.
fn parse_inlines<'r, 'p>(pairs: &mut Pairs<'r, 'p>) -> (r: Result<Vec<Inline<'p>>, Error>)
    requires
        old(pairs).wf(),
    ensures
        final(pairs).follows(*old(pairs)),
        (forall|i: int| old(pairs).pos <= i < old(pairs).items@.len() ==> inline_ok(#[trigger] old(pairs).items@[i]))
            ==> r is Ok && final(pairs).pos == final(pairs).items@.len(),
        (forall|i: int| old(pairs).pos <= i < old(pairs).items@.len() ==> inline_ok(#[trigger] old(pairs).items@[i]))
            ==> inlines_denote(old(pairs).items@.subrange(old(pairs).pos as int, old(pairs).items@.len() as int), r->Ok_0@),
        r is Err ==> !(r->Err_0.kind is NoMatch),
        r is Ok ==> (forall|i: int| old(pairs).pos <= i < final(pairs).pos ==> inline_ok(#[trigger] old(pairs).items@[i]))
            && (final(pairs).pos == old(pairs).items@.len() || !starts_inline(old(pairs).items@[final(pairs).pos as int].rule)),
        r is Err && r->Err_0.kind is InvalidEscape ==> r->Err_0.spans@.len() > 0 && r->Err_0.spans@[0].rule == Rule::EscapedPlainText,
        (forall|i: int| old(pairs).pos <= i < old(pairs).items@.len() ==> inline_form(#[trigger] old(pairs).items@[i], false)) ==> (r is Ok || r->Err_0.kind is InvalidEscape),
    decreases old(pairs).items@, 3nat,
{
    let mut buf: Vec<Inline<'p>> = Vec::new();
    let ghost all_ok = forall|i: int| old(pairs).pos <= i < old(pairs).items@.len() ==> inline_ok(#[trigger] old(pairs).items@[i]);
    let ghost start = pairs.pos as int;
    assert(old(pairs).items@.subrange(start, start) =~= Seq::<Pair>::empty());
    loop
        invariant
            pairs.follows(*old(pairs)),
            start == old(pairs).pos,
            all_ok ==> forall|i: int| pairs.pos <= i < pairs.items@.len() ==> inline_ok(#[trigger] pairs.items@[i]),
            all_ok ==> inlines_denote(pairs.items@.subrange(start, pairs.pos as int), buf@),
            all_ok && pairs.pos > start && is_text_atom(pairs.items@[pairs.pos - 1].rule)
                ==> pairs.pos == pairs.items@.len() || !is_text_atom(pairs.items@[pairs.pos as int].rule),
            forall|i: int| start <= i < pairs.pos ==> inline_ok(#[trigger] pairs.items@[i]),
            (forall|i: int| start <= i < pairs.items@.len() ==> inline_form(#[trigger] pairs.items@[i], false))
                ==> forall|i: int| pairs.pos <= i < pairs.items@.len() ==> inline_form(#[trigger] pairs.items@[i], false),
        ensures
            forall|i: int| start <= i < pairs.pos ==> inline_ok(#[trigger] pairs.items@[i]),
            pairs.pos == pairs.items@.len() || !starts_inline(pairs.items@[pairs.pos as int].rule),
            pairs.follows(*old(pairs)),
            all_ok ==> pairs.pos == pairs.items@.len(),
            all_ok ==> inlines_denote(pairs.items@.subrange(start, pairs.pos as int), buf@),
        decreases pairs.items@.len() - pairs.pos,
    {
        proof {
            if all_ok && pairs.pos < pairs.items@.len() {
                assert(inline_ok(pairs.items@[pairs.pos as int]));
                assert forall|i: int| pairs.pos <= i < pairs.items@.len() && is_text_atom(pairs.items@[i].rule)
                    implies atom_ok(#[trigger] pairs.items@[i]) by {
                    assert(inline_ok(pairs.items@[i]));
                }
            }
        }
        let ghost at = pairs.pos as int;
        let ghost before = buf@;
        match recover(parse_inline(pairs))? {
            Some(item) => {
                buf.push(item);
                proof {
                    if all_ok {
                        let ps = pairs.items@;
                        let sub = ps.subrange(start, pairs.pos as int);
                        assert(buf@.drop_last() =~= before);
                        if is_text_atom(ps[at].rule) {
                            if at > start {
                                assert(!is_text_atom(ps[at - 1].rule));
                            }
                            assert forall|i: int| at - start <= i < sub.len() implies is_text_atom(#[trigger] sub[i].rule) by {
                                assert(sub[i] == ps[start + i]);
                            }
                            if at > start {
                                assert(sub[at - start - 1] == ps[at - 1]);
                            }
                            lemma_trailing_atoms(sub, at - start);
                            assert(sub.last() == ps[pairs.pos - 1]);
                            assert(sub.subrange(at - start, sub.len() as int) =~= ps.subrange(at, pairs.pos as int));
                            assert(sub.subrange(0, at - start) =~= ps.subrange(start, at));
                        } else {
                            assert(sub.last() == ps[at]);
                            assert(sub.drop_last() =~= ps.subrange(start, at));
                        }
                    }
                }
            },
            None => {
                break;
            },
        }
    }
    Ok(buf)
}

/// Parses one inline item: a soft break, or failing that a tag, or failing that text.
fn parse_inline<'r, 'p>(pairs: &mut Pairs<'r, 'p>) -> (r: Result<Inline<'p>, Error>)
    requires
        old(pairs).wf(),
    ensures
        final(pairs).follows(*old(pairs)),
        r is Ok ==> old(pairs).pos < final(pairs).pos,
        old(pairs).pos < old(pairs).items@.len() && inline_ok(old(pairs).items@[old(pairs).pos as int])
            && (is_text_atom(old(pairs).items@[old(pairs).pos as int].rule) ==> run_ok(old(pairs).items@, old(pairs).pos as int)) ==> r is Ok,
        old(pairs).pos == old(pairs).items@.len() || !starts_inline(old(pairs).items@[old(pairs).pos as int].rule) ==> r is Err && r->Err_0.kind is NoMatch && final(pairs).pos == old(pairs).pos,
        old(pairs).pos < old(pairs).items@.len() && inline_ok(old(pairs).items@[old(pairs).pos as int])
            && !is_text_atom(old(pairs).items@[old(pairs).pos as int].rule) ==> final(pairs).pos == old(pairs).pos + 1 && inline_denotes(old(pairs).items@[old(pairs).pos as int], r->Ok_0),
        old(pairs).pos < old(pairs).items@.len() && is_text_atom(old(pairs).items@[old(pairs).pos as int].rule) && run_ok(old(pairs).items@, old(pairs).pos as int) ==> {
            &&& r->Ok_0 is Text
            &&& old(pairs).pos < final(pairs).pos
            &&& forall|i: int| old(pairs).pos <= i < final(pairs).pos ==> is_text_atom(#[trigger] old(pairs).items@[i].rule)
            &&& final(pairs).pos == final(pairs).items@.len() || !is_text_atom(final(pairs).items@[final(pairs).pos as int].rule)
            &&& r->Ok_0->Text_0@ == run_chars(old(pairs).items@.subrange(old(pairs).pos as int, final(pairs).pos as int))
        },
        old(pairs).pos < old(pairs).items@.len() && starts_inline(old(pairs).items@[old(pairs).pos as int].rule) ==> (r is Err ==> !(r->Err_0.kind is NoMatch)),
        r is Ok && !is_text_atom(old(pairs).items@[old(pairs).pos as int].rule) ==> inline_ok(old(pairs).items@[old(pairs).pos as int]) && final(pairs).pos == old(pairs).pos + 1,
        old(pairs).pos < old(pairs).items@.len() && starts_inline(old(pairs).items@[old(pairs).pos as int].rule) && !inline_ok(old(pairs).items@[old(pairs).pos as int]) ==> r is Err && !(r->Err_0.kind is NoMatch),
        r is Ok && is_text_atom(old(pairs).items@[old(pairs).pos as int].rule) ==> old(pairs).pos < final(pairs).pos
            && forall|i: int| old(pairs).pos <= i < final(pairs).pos ==> atom_ok(#[trigger] old(pairs).items@[i]),
        r is Err && r->Err_0.kind is InvalidEscape ==> r->Err_0.spans@.len() > 0 && r->Err_0.spans@[0].rule == Rule::EscapedPlainText,
        old(pairs).pos < old(pairs).items@.len() && inline_form(old(pairs).items@[old(pairs).pos as int], false) ==> (r is Ok || r->Err_0.kind is InvalidEscape),
    decreases old(pairs).items@, 2nat,
{
    if let Some(item) = recover(parse_soft_break(pairs))? {
        return Ok(item);
    }
    if let Some(tag) = recover(parse_inline_tag(pairs))? {
        return Ok(Inline::Tag(tag));
    }
    let text = parse_text(pairs)?;
    Ok(Inline::Text(text))
}

/// Parses an inline tag: its name, its properties if any, and its content if any.
fn parse_inline_tag<'r, 'p>(pairs: &mut Pairs<'r, 'p>) -> (r: Result<InlineTag<'p>, Error>)
    requires
        old(pairs).wf(),
    ensures
        final(pairs).follows(*old(pairs)),
        r is Ok ==> final(pairs).pos == old(pairs).pos + 1
            && old(pairs).items@[old(pairs).pos as int].rule == Rule::InlineTag,
        old(pairs).pos < old(pairs).items@.len() && old(pairs).items@[old(pairs).pos as int].rule == Rule::InlineTag && inline_ok(old(pairs).items@[old(pairs).pos as int]) ==> r is Ok,
        old(pairs).pos == old(pairs).items@.len() || old(pairs).items@[old(pairs).pos as int].rule != Rule::InlineTag ==> r is Err && r->Err_0.kind is NoMatch && final(pairs).pos == old(pairs).pos,
        old(pairs).pos < old(pairs).items@.len() && old(pairs).items@[old(pairs).pos as int].rule == Rule::InlineTag && inline_ok(old(pairs).items@[old(pairs).pos as int])
            ==> inline_denotes(old(pairs).items@[old(pairs).pos as int], Inline::Tag(r->Ok_0)),
        old(pairs).pos < old(pairs).items@.len() && old(pairs).items@[old(pairs).pos as int].rule == Rule::InlineTag ==> (r is Err ==> !(r->Err_0.kind is NoMatch)),
        r is Ok ==> inline_ok(old(pairs).items@[old(pairs).pos as int]),
        r is Err && r->Err_0.kind is InvalidEscape ==> r->Err_0.spans@.len() > 0 && r->Err_0.spans@[0].rule == Rule::EscapedPlainText
            && r->Err_0.spans@.last() == location_of(old(pairs).items@[old(pairs).pos as int]),
        old(pairs).pos < old(pairs).items@.len() && old(pairs).items@[old(pairs).pos as int].rule == Rule::InlineTag && inline_form(old(pairs).items@[old(pairs).pos as int], false) ==> (r is Ok || r->Err_0.kind is InvalidEscape),
    decreases old(pairs).items@, 1nat,
{
    let pair = pairs.rule(Rule::InlineTag)?;
    let mut inner = Pairs::new(pair.inner.as_slice());
    let out = match parse_key(&mut inner) {
        Ok(name) => match parse_props_or_empty(&mut inner) {
            Ok(props) => {
                let content = match inner.rule(Rule::Paragraph) {
                    Ok(para) => {
                        let mut items = Pairs::new(para.inner.as_slice());
                        let out = parse_inlines(&mut items);
                        assert(para.inner@.subrange(0, para.inner@.len() as int) =~= para.inner@);
                        proof {
                            if inlines_form(para.inner@, false) && items.pos < items.items@.len() {
                                assert(inline_form(items.items@[items.pos as int], false));
                            }
                        }
                        leave(para, &items, out)
                    },
                    Err(e) => Err(e),
                };
                match recover(content) {
                    Ok(Some(content)) => Ok(InlineTag::new(name, props, content)),
                    Ok(None) => Ok(InlineTag::new(name, props, Vec::new())),
                    Err(e) => Err(e),
                }
            },
            Err(e) => Err(e),
        },
        Err(e) => Err(e),
    };
    leave(pair, &inner, out)
}

/// Parses a paragraph: a sequence of inline items inside a match of rule `Paragraph`.
fn parse_paragraph<'r, 'p>(pairs: &mut Pairs<'r, 'p>) -> (r: Result<Vec<Inline<'p>>, Error>)
    requires
        old(pairs).wf(),
    ensures
        final(pairs).follows(*old(pairs)),
        r is Ok ==> final(pairs).pos == old(pairs).pos + 1
            && old(pairs).items@[old(pairs).pos as int].rule == Rule::Paragraph,
        old(pairs).pos < old(pairs).items@.len() && old(pairs).items@[old(pairs).pos as int].rule == Rule::Paragraph && inlines_ok(old(pairs).items@[old(pairs).pos as int].inner@) ==> r is Ok,
        old(pairs).pos == old(pairs).items@.len() || old(pairs).items@[old(pairs).pos as int].rule != Rule::Paragraph ==> r is Err && r->Err_0.kind is NoMatch && final(pairs).pos == old(pairs).pos,
        old(pairs).pos < old(pairs).items@.len() && old(pairs).items@[old(pairs).pos as int].rule == Rule::Paragraph && inlines_ok(old(pairs).items@[old(pairs).pos as int].inner@)
            ==> inlines_denote(old(pairs).items@[old(pairs).pos as int].inner@, r->Ok_0@),
        old(pairs).pos < old(pairs).items@.len() && old(pairs).items@[old(pairs).pos as int].rule == Rule::Paragraph ==> (r is Err ==> !(r->Err_0.kind is NoMatch)),
        r is Ok ==> inlines_ok(old(pairs).items@[old(pairs).pos as int].inner@),
        r is Err && r->Err_0.kind is InvalidEscape ==> r->Err_0.spans@.len() > 0 && r->Err_0.spans@[0].rule == Rule::EscapedPlainText
            && r->Err_0.spans@.last() == location_of(old(pairs).items@[old(pairs).pos as int]),
        old(pairs).pos < old(pairs).items@.len() && old(pairs).items@[old(pairs).pos as int].rule == Rule::Paragraph && inlines_form(old(pairs).items@[old(pairs).pos as int].inner@, false) ==> (r is Ok || r->Err_0.kind is InvalidEscape),
{
    let pair = pairs.rule(Rule::Paragraph)?;
    let mut inner = Pairs::new(pair.inner.as_slice());
    let out = parse_inlines(&mut inner);
    assert(pair.inner@.subrange(0, pair.inner@.len() as int) =~= pair.inner@);
    leave(pair, &inner, out)
}

/// Parses a sequence of blocks, up to the first position where none stands.
fn parse_blocks<'r, 'p>(pairs: &mut Pairs<'r, 'p>) -> (r: Result<Vec<Block<'p>>, Error>)
    requires
        old(pairs).wf(),
    ensures
        final(pairs).follows(*old(pairs)),
        forall|e: int| #[trigger] blocks_run(old(pairs).items@, old(pairs).pos as int, e) ==> r is Ok && final(pairs).pos == e,
        forall|e: int| #[trigger] blocks_run(old(pairs).items@, old(pairs).pos as int, e) ==> r->Ok_0@.len() == e - old(pairs).pos
            && forall|i: int| 0 <= i < r->Ok_0@.len() ==> block_denotes(old(pairs).items@[old(pairs).pos + i], #[trigger] r->Ok_0@[i]),
        r is Err ==> !(r->Err_0.kind is NoMatch),
        r is Ok ==> blocks_run(old(pairs).items@, old(pairs).pos as int, final(pairs).pos as int),
        r is Err && r->Err_0.kind is InvalidEscape ==> r->Err_0.spans@.len() > 0 && r->Err_0.spans@[0].rule == Rule::EscapedPlainText,
        (exists|e: int| #[trigger] blocks_run_form(old(pairs).items@, old(pairs).pos as int, e, false)) ==> (r is Ok || r->Err_0.kind is InvalidEscape),
    decreases old(pairs).items@, 3nat,
{
    let mut buf: Vec<Block<'p>> = Vec::new();
    loop
        invariant
            pairs.follows(*old(pairs)),
            forall|e: int| #[trigger] blocks_run(old(pairs).items@, old(pairs).pos as int, e) ==> pairs.pos <= e
                && buf@.len() == pairs.pos - old(pairs).pos
                && forall|i: int| 0 <= i < buf@.len() ==> block_denotes(old(pairs).items@[old(pairs).pos + i], #[trigger] buf@[i]),
            forall|i: int| old(pairs).pos <= i < pairs.pos ==> block_ok(#[trigger] pairs.items@[i]),
            forall|e: int| #[trigger] blocks_run_form(old(pairs).items@, old(pairs).pos as int, e, false) ==> pairs.pos <= e,
        ensures
            forall|i: int| old(pairs).pos <= i < pairs.pos ==> block_ok(#[trigger] pairs.items@[i]),
            pairs.pos == pairs.items@.len() || !starts_block(pairs.items@[pairs.pos as int].rule),
            pairs.follows(*old(pairs)),
            forall|e: int| #[trigger] blocks_run(old(pairs).items@, old(pairs).pos as int, e) ==> pairs.pos == e
                && buf@.len() == pairs.pos - old(pairs).pos
                && forall|i: int| 0 <= i < buf@.len() ==> block_denotes(old(pairs).items@[old(pairs).pos + i], #[trigger] buf@[i]),
        decreases pairs.items@.len() - pairs.pos,
    {
        let ghost at = pairs.pos;
        match recover(parse_block(pairs))? {
            Some(block) => buf.push(block),
            None => {
                break;
            },
        }
    }
    Ok(buf)
}

/// Parses one block: a tag, or failing that a paragraph.
fn parse_block<'r, 'p>(pairs: &mut Pairs<'r, 'p>) -> (r: Result<Block<'p>, Error>)
    requires
        old(pairs).wf(),
    ensures
        final(pairs).follows(*old(pairs)),
        r is Ok ==> old(pairs).pos < final(pairs).pos,
        old(pairs).pos < old(pairs).items@.len() && block_ok(old(pairs).items@[old(pairs).pos as int]) ==> r is Ok && final(pairs).pos == old(pairs).pos + 1,
        old(pairs).pos == old(pairs).items@.len() || !starts_block(old(pairs).items@[old(pairs).pos as int].rule) ==> r is Err && r->Err_0.kind is NoMatch && final(pairs).pos == old(pairs).pos,
        old(pairs).pos < old(pairs).items@.len() && block_ok(old(pairs).items@[old(pairs).pos as int]) ==> block_denotes(old(pairs).items@[old(pairs).pos as int], r->Ok_0),
        old(pairs).pos < old(pairs).items@.len() && starts_block(old(pairs).items@[old(pairs).pos as int].rule) ==> (r is Err ==> !(r->Err_0.kind is NoMatch)),
        r is Ok ==> final(pairs).pos == old(pairs).pos + 1 && block_ok(old(pairs).items@[old(pairs).pos as int]),
        old(pairs).pos < old(pairs).items@.len() && starts_block(old(pairs).items@[old(pairs).pos as int].rule) && !block_ok(old(pairs).items@[old(pairs).pos as int]) ==> r is Err && !(r->Err_0.kind is NoMatch),
        r is Err && r->Err_0.kind is InvalidEscape ==> r->Err_0.spans@.len() > 0 && r->Err_0.spans@[0].rule == Rule::EscapedPlainText,
        old(pairs).pos < old(pairs).items@.len() && block_form(old(pairs).items@[old(pairs).pos as int], false) ==> (r is Ok || r->Err_0.kind is InvalidEscape),
    decreases old(pairs).items@, 2nat,
{
    if let Some(tag) = recover(parse_block_tag(pairs))? {
        return Ok(Block::Tag(tag));
    }
    let content = parse_paragraph(pairs)?;
    Ok(Block::Content(content))
}

/// Parses a block tag: one whose children are blocks, or failing that one whose only child
/// is a literal.
fn parse_block_tag<'r, 'p>(pairs: &mut Pairs<'r, 'p>) -> (r: Result<BlockTag<'p>, Error>)
    requires
        old(pairs).wf(),
    ensures
        final(pairs).follows(*old(pairs)),
        r is Ok ==> old(pairs).pos < final(pairs).pos,
        old(pairs).pos < old(pairs).items@.len() && (old(pairs).items@[old(pairs).pos as int].rule == Rule::BlockTag || old(pairs).items@[old(pairs).pos as int].rule == Rule::LiteralTag)
            && block_ok(old(pairs).items@[old(pairs).pos as int]) ==> r is Ok && final(pairs).pos == old(pairs).pos + 1,
        old(pairs).pos == old(pairs).items@.len() || (old(pairs).items@[old(pairs).pos as int].rule != Rule::BlockTag && old(pairs).items@[old(pairs).pos as int].rule != Rule::LiteralTag) ==> r is Err && r->Err_0.kind is NoMatch && final(pairs).pos == old(pairs).pos,
        old(pairs).pos < old(pairs).items@.len() && (old(pairs).items@[old(pairs).pos as int].rule == Rule::BlockTag || old(pairs).items@[old(pairs).pos as int].rule == Rule::LiteralTag)
            && block_ok(old(pairs).items@[old(pairs).pos as int]) ==> block_denotes(old(pairs).items@[old(pairs).pos as int], Block::Tag(r->Ok_0)),
        old(pairs).pos < old(pairs).items@.len() && (old(pairs).items@[old(pairs).pos as int].rule == Rule::BlockTag || old(pairs).items@[old(pairs).pos as int].rule == Rule::LiteralTag) ==> (r is Err ==> !(r->Err_0.kind is NoMatch)),
        r is Ok ==> final(pairs).pos == old(pairs).pos + 1 && block_ok(old(pairs).items@[old(pairs).pos as int]),
        old(pairs).pos < old(pairs).items@.len() && (old(pairs).items@[old(pairs).pos as int].rule == Rule::BlockTag || old(pairs).items@[old(pairs).pos as int].rule == Rule::LiteralTag) && !block_ok(old(pairs).items@[old(pairs).pos as int])
            ==> r is Err && !(r->Err_0.kind is NoMatch),
        r is Err && r->Err_0.kind is InvalidEscape ==> r->Err_0.spans@.len() > 0 && r->Err_0.spans@[0].rule == Rule::EscapedPlainText,
        old(pairs).pos < old(pairs).items@.len() && (old(pairs).items@[old(pairs).pos as int].rule == Rule::BlockTag || old(pairs).items@[old(pairs).pos as int].rule == Rule::LiteralTag) && block_form(old(pairs).items@[old(pairs).pos as int], false) ==> (r is Ok || r->Err_0.kind is InvalidEscape),
    decreases old(pairs).items@, 1nat,
{
    let structural = match pairs.rule(Rule::BlockTag) {
        Ok(pair) => {
            let mut inner = Pairs::new(pair.inner.as_slice());
            let out = match parse_key(&mut inner) {
                Ok(name) => match parse_props_or_empty(&mut inner) {
                    Ok(props) => {
                        proof {
                            if block_ok(*pair) {
                                assert(blocks_run(inner.items@, inner.pos as int, inner.items@.len() as int));
                            }
                            if block_form(*pair, false) {
                                assert(blocks_run_form(inner.items@, inner.pos as int, inner.items@.len() as int, false));
                            }
                        }
                        match parse_blocks(&mut inner) {
                            Ok(content) => Ok(BlockTag::new(name, props, content)),
                            Err(e) => Err(e),
                        }
                    },
                    Err(e) => Err(e),
                },
                Err(e) => Err(e),
            };
            leave(pair, &inner, out)
        },
        Err(e) => Err(e),
    };
    if let Some(tag) = recover(structural)? {
        return Ok(tag);
    }
    parse_literal_tag(pairs)
}

/// Parses a literal tag: its name, its properties if any, and its literal text, empty if none
/// is given. The text is kept exactly as the source has it.
fn parse_literal_tag<'r, 'p>(pairs: &mut Pairs<'r, 'p>) -> (r: Result<BlockTag<'p>, Error>)
    requires
        old(pairs).wf(),
    ensures
        final(pairs).follows(*old(pairs)),
        r matches Ok(tag) ==> {
            let pair = old(pairs).items@[old(pairs).pos as int];
            &&& final(pairs).pos == old(pairs).pos + 1
            &&& pair.rule == Rule::LiteralTag
            &&& pair.inner@.len() > 0
            &&& pair.inner@[0].rule == Rule::Key
            &&& tag.name@ == (pair.inner@[0].text@, None::<u64>)
            &&& tag.content@.len() == 1
            &&& tag.content@[0] is Literal
            &&& pair.inner@.last().rule == Rule::Literal ==> tag.content@[0]->Literal_0.text@ == pair.inner@.last().text@
            &&& pair.inner@.last().rule != Rule::Literal ==> tag.content@[0]->Literal_0.text@.len() == 0
        },
        old(pairs).pos < old(pairs).items@.len() && old(pairs).items@[old(pairs).pos as int].rule == Rule::LiteralTag && block_ok(old(pairs).items@[old(pairs).pos as int]) ==> r is Ok,
        old(pairs).pos == old(pairs).items@.len() || old(pairs).items@[old(pairs).pos as int].rule != Rule::LiteralTag ==> r is Err && r->Err_0.kind is NoMatch && final(pairs).pos == old(pairs).pos,
        old(pairs).pos < old(pairs).items@.len() && old(pairs).items@[old(pairs).pos as int].rule == Rule::LiteralTag && block_ok(old(pairs).items@[old(pairs).pos as int])
            ==> block_denotes(old(pairs).items@[old(pairs).pos as int], Block::Tag(r->Ok_0)),
        old(pairs).pos < old(pairs).items@.len() && old(pairs).items@[old(pairs).pos as int].rule == Rule::LiteralTag ==> (r is Err ==> !(r->Err_0.kind is NoMatch)),
        r is Ok ==> block_ok(old(pairs).items@[old(pairs).pos as int]),
        r is Err && r->Err_0.kind is InvalidEscape ==> r->Err_0.spans@.len() > 0 && r->Err_0.spans@[0].rule == Rule::EscapedPlainText
            && r->Err_0.spans@.last() == location_of(old(pairs).items@[old(pairs).pos as int]),
        old(pairs).pos < old(pairs).items@.len() && old(pairs).items@[old(pairs).pos as int].rule == Rule::LiteralTag && block_form(old(pairs).items@[old(pairs).pos as int], false) ==> (r is Ok || r->Err_0.kind is InvalidEscape),
{
    let pair = pairs.rule(Rule::LiteralTag)?;
    let mut inner = Pairs::new(pair.inner.as_slice());
    let out = match parse_key(&mut inner) {
        Ok(name) => match parse_props_or_empty(&mut inner) {
            Ok(props) => {
                let ghost before = inner.pos;
                match recover(parse_literal(&mut inner)) {
                    Ok(lit) => {
                        let lit = match lit {
                            Some(lit) => lit,
                            None => Literal::default(),
                        };
                        let mut content: Vec<Block<'p>> = Vec::new();
                        content.push(Block::Literal(lit));
                        Ok(BlockTag::new(name, props, content))
                    },
                    Err(e) => Err(e),
                }
            },
            Err(e) => Err(e),
        },
        Err(e) => Err(e),
    };
    leave(pair, &inner, out)
}

/// Parses a document: its header if any, its blocks, and the end of the input.
fn parse_document_node<'r, 'p>(pairs: &mut Pairs<'r, 'p>) -> (r: Result<Document<'p>, Error>)
    requires
        old(pairs).wf(),
    ensures
        final(pairs).follows(*old(pairs)),
        old(pairs).pos == old(pairs).items@.len() ==> r is Err && r->Err_0.kind is NoMatch,
        r is Ok ==> final(pairs).pos == old(pairs).pos + 1
            && old(pairs).items@[old(pairs).pos as int].rule == Rule::Document,
        old(pairs).pos < old(pairs).items@.len() && document_ok(old(pairs).items@[old(pairs).pos as int]) ==> r is Ok,
        old(pairs).pos < old(pairs).items@.len() && document_ok(old(pairs).items@[old(pairs).pos as int]) ==> document_denotes(old(pairs).items@[old(pairs).pos as int], r->Ok_0),
        old(pairs).pos < old(pairs).items@.len() && old(pairs).items@[old(pairs).pos as int].rule == Rule::Document ==> (r is Err ==> !(r->Err_0.kind is NoMatch)),
        r is Ok ==> document_ok(old(pairs).items@[old(pairs).pos as int]),
        r is Err && r->Err_0.kind is InvalidEscape ==> r->Err_0.spans@.len() > 0 && r->Err_0.spans@[0].rule == Rule::EscapedPlainText
            && r->Err_0.spans@.last() == location_of(old(pairs).items@[old(pairs).pos as int]),
        r is Err && !(r->Err_0.kind is NoMatch) ==> old(pairs).pos < old(pairs).items@.len() && old(pairs).items@[old(pairs).pos as int].rule == Rule::Document,
        old(pairs).pos < old(pairs).items@.len() && document_form(old(pairs).items@[old(pairs).pos as int], false) ==> (r is Ok || r->Err_0.kind is InvalidEscape),
{
    let pair = pairs.rule(Rule::Document)?;
    let mut inner = Pairs::new(pair.inner.as_slice());
    let out = match recover(parse_header(&mut inner)) {
        Ok(meta) => {
            let meta = match meta {
                Some(meta) => meta,
                None => Meta::default(),
            };
            proof {
                if document_ok(*pair) {
                    assert(blocks_run(inner.items@, inner.pos as int, inner.items@.len() - 1));
                }
                if document_form(*pair, false) {
                    assert(blocks_run_form(inner.items@, inner.pos as int, inner.items@.len() - 1, false));
                }
            }
            match parse_blocks(&mut inner) {
                Ok(content) => match inner.rule(Rule::EOI) {
                    Ok(_) => Ok(Document::new(meta, content)),
                    Err(e) => Err(e),
                },
                Err(e) => Err(e),
            }
        },
        Err(e) => Err(e),
    };
    leave(pair, &inner, out)
}

/// Parses a whole document from the rule tree that the grammar made of its source. Every
/// match must be used: a match left over is an error, never silently dropped.
pub fn parse_document<'r, 'p>(pairs: &'r [Pair<'p>]) -> (r: Result<Document<'p>, Error>)
    ensures
        r is Ok ==> pairs@.len() == 1 && document_ok(pairs@[0]),
        pairs@.len() > 0 && pairs@[0].rule == Rule::Document && !document_ok(pairs@[0])
            ==> r is Err && !(r->Err_0.kind is NoMatch),
        pairs@.len() == 0 ==> r is Err && r->Err_0.kind is NoMatch,
        pairs@.len() > 1 ==> r is Err,
        pairs@.len() == 1 && document_form(pairs@[0], false) && !document_ok(pairs@[0])
            ==> r is Err && r->Err_0.kind is InvalidEscape,
        r is Err && r->Err_0.kind is InvalidEscape ==> r->Err_0.spans@.len() >= 2
            && r->Err_0.spans@[0].rule == Rule::EscapedPlainText && r->Err_0.spans@.last() == location_of(pairs@[0]),
        pairs@.len() > 1 && document_ok(pairs@[0]) ==> r->Err_0.kind is Trailing
            && r->Err_0.kind->Trailing_0@ == pairs@.subrange(1, pairs@.len() as int).map_values(|p: Pair<'p>| p.rule),
        pairs@.len() == 1 && document_ok(pairs@[0]) ==> r is Ok && document_denotes(pairs@[0], r->Ok_0),
{
    let mut cursor = Pairs::new(pairs);
    let doc = parse_document_node(&mut cursor)?;
    cursor.assert_empty()?;
    Ok(doc)
}

/// Parses only the header of a document, for its title and properties.
pub fn parse_meta<'r, 'p>(pairs: &'r [Pair<'p>]) -> (r: Result<Meta<'p>, Error>)
    ensures
        r is Ok ==> pairs@.len() > 0 && pairs@[0].rule == Rule::Document,
        pairs@.len() > 0 && document_ok(pairs@[0]) ==> r is Ok && if pairs@[0].inner@[0].rule == Rule::Header {
            header_denotes(pairs@[0].inner@[0], r->Ok_0)
        } else {
            r->Ok_0.title@.len() == 0 && r->Ok_0.props.flags().is_empty() && r->Ok_0.props.values().is_empty()
        },
{
    let mut cursor = Pairs::new(pairs);
    let pair = cursor.rule(Rule::Document)?;
    let mut inner = Pairs::new(pair.inner.as_slice());
    match recover(parse_header(&mut inner))? {
        Some(meta) => Ok(meta),
        None => Ok(Meta::default()),
    }
}

/// The header that `parse_meta` reads is the one that `parse_document` gives: whatever both
/// return for one well-formed document has the same title and properties.
pub proof fn lemma_meta_agrees_with_document(p: Pair, d: Document, m: Meta)
    requires
        document_ok(p),
        document_denotes(p, d),
        if p.inner@[0].rule == Rule::Header {
            header_denotes(p.inner@[0], m)
        } else {
            m.title@.len() == 0 && m.props.flags().is_empty() && m.props.values().is_empty()
        },
    ensures
        d.meta.title@ == m.title@,
        d.meta.props.flags() == m.props.flags(),
        d.meta.props.values() == m.props.values(),
{
    if p.inner@[0].rule != Rule::Header {
        assert(d.meta.props.flags() =~= m.props.flags());
        assert(d.meta.props.values() =~= m.props.values());
        assert(d.meta.title@ =~= m.title@);
    }
}

} // verus!
