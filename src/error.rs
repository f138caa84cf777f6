//! The rules of the grammar, and the errors of a parse with their trace of rules.

use vstd::prelude::*;
use vstd::string::StringExecFns;

verus! {

/// The rules of the grammar whose matches make up a rule tree.
#[derive(Debug, Clone, Copy, PartialEq, Eq, Hash, Structural)]
pub enum Rule {
    Document,
    Header,
    Title,
    Props,
    Prop,
    DocumentProps,
    DocumentProp,
    DocumentPropValue,
    QuotedText,
    Key,
    Paragraph,
    BlockTag,
    LiteralTag,
    InlineTag,
    SoftBreak,
    Literal,
    PlainText,
    PlainQuotedText,
    EscapedPlainText,
    EOI,
}

impl Rule {
    /// The name of the rule, as it appears in an error's trace.
    pub open spec fn spec_name(self) -> Seq<char> {
        match self {
            Rule::Document => "Document"@,
            Rule::Header => "Header"@,
            Rule::Title => "Title"@,
            Rule::Props => "Props"@,
            Rule::Prop => "Prop"@,
            Rule::DocumentProps => "DocumentProps"@,
            Rule::DocumentProp => "DocumentProp"@,
            Rule::DocumentPropValue => "DocumentPropValue"@,
            Rule::QuotedText => "QuotedText"@,
            Rule::Key => "Key"@,
            Rule::Paragraph => "Paragraph"@,
            Rule::BlockTag => "BlockTag"@,
            Rule::LiteralTag => "LiteralTag"@,
            Rule::InlineTag => "InlineTag"@,
            Rule::SoftBreak => "SoftBreak"@,
            Rule::Literal => "Literal"@,
            Rule::PlainText => "PlainText"@,
            Rule::PlainQuotedText => "PlainQuotedText"@,
            Rule::EscapedPlainText => "EscapedPlainText"@,
            Rule::EOI => "EOI"@,
        }
    }

    pub fn name(&self) -> (r: &'static str)
        ensures
            r@ == self.spec_name(),
    {
        match self {
            Rule::Document => "Document",
            Rule::Header => "Header",
            Rule::Title => "Title",
            Rule::Props => "Props",
            Rule::Prop => "Prop",
            Rule::DocumentProps => "DocumentProps",
            Rule::DocumentProp => "DocumentProp",
            Rule::DocumentPropValue => "DocumentPropValue",
            Rule::QuotedText => "QuotedText",
            Rule::Key => "Key",
            Rule::Paragraph => "Paragraph",
            Rule::BlockTag => "BlockTag",
            Rule::LiteralTag => "LiteralTag",
            Rule::InlineTag => "InlineTag",
            Rule::SoftBreak => "SoftBreak",
            Rule::Literal => "Literal",
            Rule::PlainText => "PlainText",
            Rule::PlainQuotedText => "PlainQuotedText",
            Rule::EscapedPlainText => "EscapedPlainText",
            Rule::EOI => "EOI",
        }
    }
}

/// A rule, and the byte span of the source that it matched.
#[derive(Debug, Clone, Copy, PartialEq, Eq, Structural)]
pub struct Location {
    pub rule: Rule,
    pub start: usize,
    pub end: usize,
}

/// What went wrong.
#[derive(Debug, PartialEq, Eq)]
pub enum ErrorKind {
    /// An escape sequence outside the known set.
    InvalidEscape(String),
    /// The rule that was asked for is not at this position; callers may try another.
    NoMatch,
    /// The grammar did not match the source: the message of the grammar engine.
    SyntaxError(String),
    /// Rules were left over after a parse that should have used them all.
    Trailing(Vec<Rule>),
}

/// A parse error, with the trail of rules that it passed through, innermost first.
#[derive(Debug, PartialEq, Eq)]
pub struct Error {
    pub spans: Vec<Location>,
    pub kind: ErrorKind,
}

impl Error {
    /// An error of kind `kind`, with an empty trail.
    pub fn new(kind: ErrorKind) -> (r: Error)
        ensures
            r.kind == kind,
            r.spans@.len() == 0,
    {
        Error { spans: Vec::new(), kind }
    }

    /// Adds the rule `rule`, which spanned `start..end`, to the trail.
    pub fn annotate(self, rule: Rule, start: usize, end: usize) -> (r: Error)
        ensures
            r.kind == self.kind,
            r.spans@ == self.spans@.push(Location { rule, start, end }),
    {
        let mut e = self;
        e.spans.push(Location { rule, start, end });
        e
    }

    /// The error for rules left over, if there are any.
    pub fn trailing(rules: Vec<Rule>) -> (r: Option<Error>)
        ensures
            rules@.len() == 0 <==> r is None,
            r matches Some(e) ==> e.kind == ErrorKind::Trailing(rules) && e.spans@.len() == 0,
    {
        if rules.len() == 0 {
            None
        } else {
            Some(Error::new(ErrorKind::Trailing(rules)))
        }
    }

    /// The report of the error, as a top-level caller shows it.
    pub fn message(&self) -> (r: String)
        ensures
            r@ == error_text(*self),
    {
        let mut out = String::new();
        match &self.kind {
            ErrorKind::InvalidEscape(s) => {
                out.append("Invalid escape sequence ");
                out.append(s.as_str());
            },
            ErrorKind::NoMatch => out.append("No match."),
            ErrorKind::SyntaxError(m) => {
                out.append("Syntax error: ");
                out.append(m.as_str());
            },
            ErrorKind::Trailing(rules) => {
                out.append("Trailing rules: [");
                let mut i: usize = 0;
                while i < rules.len()
                    invariant
                        i <= rules@.len(),
                        out@ == "Trailing rules: ["@ + rules_text(rules@.subrange(0, i as int)),
                    decreases rules@.len() - i,
                {
                    if i > 0 {
                        out.append(", ");
                    }
                    out.append(rules[i].name());
                    proof {
                        let sub = rules@.subrange(0, i + 1);
                        assert(sub.drop_last() =~= rules@.subrange(0, i as int));
                        if i == 0 {
                            assert(rules_text(rules@.subrange(0, 0)) =~= Seq::<char>::empty());
                        }
                    }
                    i = i + 1;
                }
                assert(rules@.subrange(0, rules@.len() as int) =~= rules@);
                out.append("]");
            },
        }
        assert(out@ =~= kind_text(self.kind));
        out.append("\n");
        if self.spans.len() > 0 {
            out.append("trace:\n");
            let ghost head = out@;
            let mut i: usize = 0;
            assert(trace_text(self.spans@.subrange(0, 0)) =~= Seq::<char>::empty());
            while i < self.spans.len()
                invariant
                    i <= self.spans@.len(),
                    out@ == head + trace_text(self.spans@.subrange(0, i as int)),
                decreases self.spans@.len() - i,
            {
                let l = self.spans[i];
                out.append("    in rule ");
                out.append(l.rule.name());
                out.append(", ");
                out.append(decimal_string(l.start).as_str());
                out.append("-");
                out.append(decimal_string(l.end).as_str());
                out.append("\n");
                proof {
                    let sub = self.spans@.subrange(0, i + 1);
                    assert(sub.drop_last() =~= self.spans@.subrange(0, i as int));
                    assert(out@ =~= head + trace_text(sub));
                }
                i = i + 1;
            }
            assert(self.spans@.subrange(0, self.spans@.len() as int) =~= self.spans@);
        } else {
            assert(out@ =~= error_text(*self));
        }
        out
    }

    /// Whether this is the soft failure of a rule that is simply absent.
    pub fn is_no_match(&self) -> (r: bool)
        ensures
            r == (self.kind is NoMatch),
    {
        match self.kind {
            ErrorKind::NoMatch => true,
            _ => false,
        }
    }
}

/// The character of the decimal digit `d`.
pub open spec fn digit(d: nat) -> char {
    seq!['0', '1', '2', '3', '4', '5', '6', '7', '8', '9'][d as int]
}

/// The decimal digits of `n`, most significant first.
pub open spec fn decimal(n: nat) -> Seq<char>
    decreases n,
{
    if n < 10 {
        seq![digit(n)]
    } else {
        decimal(n / 10) + seq![digit(n % 10)]
    }
}

fn digit_str(d: usize) -> (r: &'static str)
    requires
        d < 10,
    ensures
        r@ == seq![digit(d as nat)],
{
    proof {
        reveal_strlit("0");
        reveal_strlit("1");
        reveal_strlit("2");
        reveal_strlit("3");
        reveal_strlit("4");
        reveal_strlit("5");
        reveal_strlit("6");
        reveal_strlit("7");
        reveal_strlit("8");
        reveal_strlit("9");
    }
    match d {
        0 => "0",
        1 => "1",
        2 => "2",
        3 => "3",
        4 => "4",
        5 => "5",
        6 => "6",
        7 => "7",
        8 => "8",
        _ => "9",
    }
}

/// `n` written in decimal.
pub fn decimal_string(n: usize) -> (r: String)
    ensures
        r@ == decimal(n as nat),
    decreases n,
{
    if n < 10 {
        digit_str(n).to_owned()
    } else {
        decimal_string(n / 10).concat(digit_str(n % 10))
    }
}

/// The names of `rules`, separated by commas.
pub open spec fn rules_text(rules: Seq<Rule>) -> Seq<char>
    decreases rules.len(),
{
    if rules.len() == 0 {
        Seq::empty()
    } else if rules.len() == 1 {
        rules[0].spec_name()
    } else {
        rules_text(rules.drop_last()) + ", "@ + rules.last().spec_name()
    }
}

/// The first line of an error's report: what went wrong.
pub open spec fn kind_text(kind: ErrorKind) -> Seq<char> {
    match kind {
        ErrorKind::InvalidEscape(s) => "Invalid escape sequence "@ + s@,
        ErrorKind::NoMatch => "No match."@,
        ErrorKind::SyntaxError(m) => "Syntax error: "@ + m@,
        ErrorKind::Trailing(rules) => "Trailing rules: ["@ + rules_text(rules@) + "]"@,
    }
}

/// The line of an error's trace for one rule that it passed through.
pub open spec fn location_text(l: Location) -> Seq<char> {
    "    in rule "@ + l.rule.spec_name() + ", "@ + decimal(l.start as nat) + "-"@ + decimal(l.end as nat) + "\n"@
}

/// The lines of an error's trace, innermost rule first.
pub open spec fn trace_text(spans: Seq<Location>) -> Seq<char>
    decreases spans.len(),
{
    if spans.len() == 0 {
        Seq::empty()
    } else {
        trace_text(spans.drop_last()) + location_text(spans.last())
    }
}

/// The report of an error: what went wrong, then the trace of rules if there is one.
pub open spec fn error_text(e: Error) -> Seq<char> {
    kind_text(e.kind) + "\n"@ + if e.spans@.len() == 0 {
        Seq::empty()
    } else {
        "trace:\n"@ + trace_text(e.spans@)
    }
}

/// Turns the soft failure of a parse into `Ok(None)`; a success or a hard failure is kept.
pub fn recover<T>(r: Result<T, Error>) -> (out: Result<Option<T>, Error>)
    ensures
        match r {
            Ok(v) => out == Ok::<Option<T>, Error>(Some(v)),
            Err(e) => if e.kind is NoMatch {
                out == Ok::<Option<T>, Error>(None)
            } else {
                out == Err::<Option<T>, Error>(e)
            },
        },
{
    match r {
        Ok(v) => Ok(Some(v)),
        Err(e) => if e.is_no_match() {
            Ok(None)
        } else {
            Err(e)
        },
    }
}

} // verus!
