//! The style-sheet model and the style parser: an ordered list of rules,
//! each a non-empty selector list with a declaration list, parsed from
//! style text by a recursive-descent parser whose behaviour is given by
//! the spec-level grammar in this module.

use vstd::prelude::*;

use crate::scan::ParseError;
use crate::scan::ParseErrorKind;
use crate::scan::POut;
use crate::scan::alnum_char;
use crate::scan::digit_char;
use crate::scan::digit_cls;
use crate::scan::hex_digit_val;
use crate::scan::lemma_seek;
use crate::scan::seek_digit;
use crate::scan::seek_hex;
use crate::scan::seek_ident;
use crate::scan::seek_space;
use crate::scan::space_char;
use crate::scan::hex_cls;
use crate::scan::hex_val;
use crate::scan::ident_cls;
use crate::scan::is_alnum_char;
use crate::scan::is_digit_char;
use crate::scan::is_space_char;
use crate::scan::seek;
use crate::scan::space_cls;

verus! {

/// A colour as four 8-bit channels.
#[derive(Clone, Copy, Debug, PartialEq, Eq, Structural)]
pub struct Rgba {
    pub r: u8,
    pub g: u8,
    pub b: u8,
    pub a: u8,
}

/// A length unit. Only pixels are recognized.
#[derive(Clone, Copy, Debug, PartialEq, Eq, Structural)]
pub enum Unit {
    Px,
}

/// A declaration value. A length carries the numeric literal exactly as
/// written (digits with at most one decimal point), so no precision is
/// lost to a binary floating-point representation.
#[derive(Clone, Debug, PartialEq)]
pub enum Value {
    Keyword(String),
    Length(String, Unit),
    Color(Rgba),
}

/// One `name: value;` declaration.
#[derive(Clone, Debug, PartialEq)]
pub struct Declaration {
    pub name: String,
    pub value: Value,
}

/// A simple selector: an optional tag name, an optional id, and the
/// accumulated class names, all of which may combine.
#[derive(Clone, Debug, PartialEq)]
pub struct SimpleSelector {
    pub tag_name: Option<String>,
    pub id: Option<String>,
    pub classes: Vec<String>,
}

/// A selector. Presently the single variant wraps a simple selector.
#[derive(Clone, Debug, PartialEq)]
pub enum Selector {
    Single(SimpleSelector),
}

/// One style rule: its selectors (non-empty) and its declarations.
#[derive(Clone, Debug, PartialEq)]
pub struct Rule {
    pub selectors: Vec<Selector>,
    pub declarations: Vec<Declaration>,
}

/// A style sheet: an ordered list of rules.
#[derive(Clone, Debug, PartialEq)]
pub struct StyleSheet {
    pub rules: Vec<Rule>,
}

/// Mathematical view of a declaration value.
#[verifier::ext_equal]
pub enum ValueV {
    Keyword(Seq<char>),
    Length(Seq<char>, Unit),
    Color(Rgba),
}

/// Mathematical view of a declaration.
#[verifier::ext_equal]
pub struct DeclV {
    pub name: Seq<char>,
    pub value: ValueV,
}

/// Mathematical view of a simple selector.
#[verifier::ext_equal]
pub struct SimpleSelV {
    pub tag_name: Option<Seq<char>>,
    pub id: Option<Seq<char>>,
    pub classes: Seq<Seq<char>>,
}

/// Mathematical view of a selector.
#[verifier::ext_equal]
pub enum SelV {
    Single(SimpleSelV),
}

/// Mathematical view of a rule.
#[verifier::ext_equal]
pub struct RuleV {
    pub selectors: Seq<SelV>,
    pub declarations: Seq<DeclV>,
}

/// Mathematical view of a style sheet.
#[verifier::ext_equal]
pub struct SheetV {
    pub rules: Seq<RuleV>,
}

impl View for Value {
    type V = ValueV;

    open spec fn view(&self) -> ValueV {
        match self {
            Value::Keyword(s) => ValueV::Keyword(s@),
            Value::Length(n, u) => ValueV::Length(n@, *u),
            Value::Color(c) => ValueV::Color(*c),
        }
    }
}

impl View for Declaration {
    type V = DeclV;

    open spec fn view(&self) -> DeclV {
        DeclV { name: self.name@, value: self.value@ }
    }
}

/// The views of a sequence of strings, in order.
pub open spec fn strs_view(v: Seq<String>) -> Seq<Seq<char>> {
    Seq::new(
        v.len(),
        |i: int|
            if 0 <= i < v.len() {
                v[i]@
            } else {
                Seq::empty()
            },
    )
}

impl View for SimpleSelector {
    type V = SimpleSelV;

    open spec fn view(&self) -> SimpleSelV {
        SimpleSelV {
            tag_name: match &self.tag_name {
                Some(t) => Some(t@),
                None => None,
            },
            id: match &self.id {
                Some(i) => Some(i@),
                None => None,
            },
            classes: strs_view(self.classes@),
        }
    }
}

impl View for Selector {
    type V = SelV;

    open spec fn view(&self) -> SelV {
        match self {
            Selector::Single(s) => SelV::Single(s@),
        }
    }
}

/// The views of a sequence of selectors, in order.
pub open spec fn sels_view(v: Seq<Selector>) -> Seq<SelV> {
    Seq::new(
        v.len(),
        |i: int|
            if 0 <= i < v.len() {
                v[i]@
            } else {
                SelV::Single(empty_sel())
            },
    )
}

/// The views of a sequence of declarations, in order.
pub open spec fn decls_view(v: Seq<Declaration>) -> Seq<DeclV> {
    Seq::new(
        v.len(),
        |i: int|
            if 0 <= i < v.len() {
                v[i]@
            } else {
                DeclV { name: Seq::empty(), value: ValueV::Keyword(Seq::empty()) }
            },
    )
}

/// The views of a sequence of rules, in order.
pub open spec fn rules_view(v: Seq<Rule>) -> Seq<RuleV> {
    Seq::new(
        v.len(),
        |i: int|
            if 0 <= i < v.len() {
                v[i]@
            } else {
                RuleV { selectors: Seq::empty(), declarations: Seq::empty() }
            },
    )
}

impl View for Rule {
    type V = RuleV;

    open spec fn view(&self) -> RuleV {
        RuleV {
            selectors: sels_view(self.selectors@),
            declarations: decls_view(self.declarations@),
        }
    }
}

impl View for StyleSheet {
    type V = SheetV;

    open spec fn view(&self) -> SheetV {
        SheetV { rules: rules_view(self.rules@) }
    }
}

/// The views of a sequence of style sheets, in order.
pub open spec fn sheets_view(v: Seq<StyleSheet>) -> Seq<SheetV> {
    Seq::new(
        v.len(),
        |i: int|
            if 0 <= i < v.len() {
                v[i]@
            } else {
                SheetV { rules: Seq::empty() }
            },
    )
}

/// A simple selector with no matchers yet.
pub open spec fn empty_sel() -> SimpleSelV {
    SimpleSelV { tag_name: None, id: None, classes: Seq::empty() }
}

/// Whether `u` is the pixel unit, compared without regard to case.
pub open spec fn px_unit(u: Seq<char>) -> bool {
    u.len() == 2 && (u[0] == 'p' || u[0] == 'P') && (u[1] == 'x' || u[1] == 'X')
}

/// The byte value of the two hexadecimal digits at `i` and `i + 1`.
pub open spec fn hex2(s: Seq<char>, i: int) -> u8 {
    (hex_val(s[i]) * 16 + hex_val(s[i + 1])) as u8
}

/// Grammar of a single selector: matchers are read until a character
/// that introduces none, accumulating into `acc`.
pub open spec fn sp_simple_selector(s: Seq<char>, pos: int, acc: SimpleSelV, fuel: nat) -> POut<
    SimpleSelV,
>
    decreases fuel,
{
    if fuel == 0 {
        POut::Exhausted
    } else if pos >= s.len() {
        POut::Parsed { v: acc, end: pos }
    } else {
        let c = s[pos];
        if c == '#' {
            let e = seek(s, pos + 1, ident_cls());
            sp_simple_selector(
                s,
                e,
                SimpleSelV {
                    tag_name: acc.tag_name,
                    id: Some(s.subrange(pos + 1, e)),
                    classes: acc.classes,
                },
                (fuel - 1) as nat,
            )
        } else if c == '.' {
            let e = seek(s, pos + 1, ident_cls());
            sp_simple_selector(
                s,
                e,
                SimpleSelV {
                    tag_name: acc.tag_name,
                    id: acc.id,
                    classes: acc.classes.push(s.subrange(pos + 1, e)),
                },
                (fuel - 1) as nat,
            )
        } else if c == '*' {
            if pos + 1 >= s.len() {
                POut::Failed { kind: ParseErrorKind::UnexpectedEndOfInput, pos: s.len() as int }
            } else if !is_space_char(s[pos + 1]) {
                POut::Failed { kind: ParseErrorKind::UnexpectedCharacter, pos: pos + 1 }
            } else {
                sp_simple_selector(s, pos + 1, acc, (fuel - 1) as nat)
            }
        } else if is_alnum_char(c) {
            let e = seek(s, pos, ident_cls());
            sp_simple_selector(
                s,
                e,
                SimpleSelV { tag_name: Some(s.subrange(pos, e)), id: acc.id, classes: acc.classes },
                (fuel - 1) as nat,
            )
        } else {
            POut::Parsed { v: acc, end: pos }
        }
    }
}

/// Grammar of a selector list: selectors separated by a comma and
/// whitespace, ended by a `{` that is not consumed.
pub open spec fn sp_selectors(s: Seq<char>, pos: int, acc: Seq<SelV>, fuel: nat) -> POut<Seq<SelV>>
    decreases fuel,
{
    if fuel == 0 {
        POut::Exhausted
    } else {
        match sp_simple_selector(s, pos, empty_sel(), fuel) {
            POut::Parsed { v: sel, end: p } => {
                let sels = acc.push(SelV::Single(sel));
                let p2 = seek(s, p, space_cls());
                if p2 >= s.len() {
                    POut::Failed { kind: ParseErrorKind::UnexpectedEndOfInput, pos: s.len() as int }
                } else if s[p2] == ',' {
                    let p3 = seek(s, p2 + 1, space_cls());
                    sp_selectors(s, p3, sels, (fuel - 1) as nat)
                } else if s[p2] == '{' {
                    POut::Parsed { v: sels, end: p2 }
                } else {
                    POut::Failed { kind: ParseErrorKind::UnexpectedCharacter, pos: p2 }
                }
            },
            POut::Failed { kind, pos: q } => POut::Failed { kind, pos: q },
            POut::Exhausted => POut::Exhausted,
        }
    }
}

/// Grammar of a declaration value: a digit begins a length, `#` begins a
/// colour, and anything else is a bare keyword.
pub open spec fn sp_value(s: Seq<char>, pos: int) -> POut<ValueV> {
    if pos >= s.len() {
        POut::Failed { kind: ParseErrorKind::UnexpectedEndOfInput, pos: s.len() as int }
    } else if is_digit_char(s[pos]) {
        sp_length(s, pos)
    } else if s[pos] == '#' {
        sp_color(s, pos)
    } else {
        let e = seek(s, pos, ident_cls());
        POut::Parsed { v: ValueV::Keyword(s.subrange(pos, e)), end: e }
    }
}

/// Grammar of a length: digits, at most one decimal point with further
/// digits, then a unit identifier, which must be the pixel unit.
pub open spec fn sp_length(s: Seq<char>, pos: int) -> POut<ValueV> {
    let e1 = seek(s, pos, digit_cls());
    let e2 = if e1 < s.len() && s[e1] == '.' {
        seek(s, e1 + 1, digit_cls())
    } else {
        e1
    };
    let num = s.subrange(pos, e2);
    let ue = seek(s, e2, ident_cls());
    let u = s.subrange(e2, ue);
    if px_unit(u) {
        POut::Parsed { v: ValueV::Length(num, Unit::Px), end: ue }
    } else {
        POut::Failed { kind: ParseErrorKind::UnrecognizedUnit, pos: e2 }
    }
}

/// Grammar of a colour: `#` then exactly six hexadecimal digits read as
/// three byte pairs, with the alpha channel fixed at 255.
pub open spec fn sp_color(s: Seq<char>, pos: int) -> POut<ValueV> {
    let e = seek(s, pos + 1, hex_cls());
    if e >= pos + 7 {
        POut::Parsed {
            v: ValueV::Color(
                Rgba { r: hex2(s, pos + 1), g: hex2(s, pos + 3), b: hex2(s, pos + 5), a: 255 },
            ),
            end: pos + 7,
        }
    } else if e >= s.len() {
        POut::Failed { kind: ParseErrorKind::UnexpectedEndOfInput, pos: s.len() as int }
    } else {
        POut::Failed { kind: ParseErrorKind::UnexpectedCharacter, pos: e }
    }
}

/// Grammar of the inside of a declaration block, after its `{`: each
/// declaration is a name, `:`, a value, and a mandatory `;`, with
/// whitespace allowed between the parts; `}` closes the block.
pub open spec fn sp_decls(s: Seq<char>, pos: int, acc: Seq<DeclV>, fuel: nat) -> POut<Seq<DeclV>>
    decreases fuel,
{
    if fuel == 0 {
        POut::Exhausted
    } else {
        let p = seek(s, pos, space_cls());
        if p >= s.len() {
            POut::Failed { kind: ParseErrorKind::UnexpectedEndOfInput, pos: s.len() as int }
        } else if s[p] == '}' {
            POut::Parsed { v: acc, end: p + 1 }
        } else {
            let e = seek(s, p, ident_cls());
            let name = s.subrange(p, e);
            let p1 = seek(s, e, space_cls());
            if p1 >= s.len() {
                POut::Failed { kind: ParseErrorKind::UnexpectedEndOfInput, pos: s.len() as int }
            } else if s[p1] != ':' {
                POut::Failed { kind: ParseErrorKind::UnexpectedCharacter, pos: p1 }
            } else {
                let p2 = seek(s, p1 + 1, space_cls());
                match sp_value(s, p2) {
                    POut::Parsed { v, end: p3 } => {
                        let p4 = seek(s, p3, space_cls());
                        if p4 >= s.len() {
                            POut::Failed {
                                kind: ParseErrorKind::UnexpectedEndOfInput,
                                pos: s.len() as int,
                            }
                        } else if s[p4] != ';' {
                            POut::Failed { kind: ParseErrorKind::UnexpectedCharacter, pos: p4 }
                        } else {
                            sp_decls(
                                s,
                                p4 + 1,
                                acc.push(DeclV { name, value: v }),
                                (fuel - 1) as nat,
                            )
                        }
                    },
                    POut::Failed { kind, pos: q } => POut::Failed { kind, pos: q },
                    POut::Exhausted => POut::Exhausted,
                }
            }
        }
    }
}

/// Grammar of a declaration block: `{`, declarations, `}`.
pub open spec fn sp_decl_block(s: Seq<char>, pos: int, fuel: nat) -> POut<Seq<DeclV>> {
    if pos >= s.len() {
        POut::Failed { kind: ParseErrorKind::UnexpectedEndOfInput, pos: s.len() as int }
    } else if s[pos] != '{' {
        POut::Failed { kind: ParseErrorKind::UnexpectedCharacter, pos }
    } else {
        sp_decls(s, pos + 1, Seq::empty(), fuel)
    }
}

/// Grammar of a rule: a selector list then a declaration block.
pub open spec fn sp_rule(s: Seq<char>, pos: int, fuel: nat) -> POut<RuleV> {
    match sp_selectors(s, pos, Seq::empty(), fuel) {
        POut::Parsed { v: sels, end: p } => match sp_decl_block(s, p, fuel) {
            POut::Parsed { v: ds, end: p2 } => POut::Parsed {
                v: RuleV { selectors: sels, declarations: ds },
                end: p2,
            },
            POut::Failed { kind, pos: q } => POut::Failed { kind, pos: q },
            POut::Exhausted => POut::Exhausted,
        },
        POut::Failed { kind, pos: q } => POut::Failed { kind, pos: q },
        POut::Exhausted => POut::Exhausted,
    }
}

/// Grammar of a whole style sheet: rules separated by whitespace until
/// the end of the input.
pub open spec fn sp_rules(s: Seq<char>, pos: int, acc: Seq<RuleV>, fuel: nat) -> POut<Seq<RuleV>>
    decreases fuel,
{
    if fuel == 0 {
        POut::Exhausted
    } else {
        let p = seek(s, pos, space_cls());
        if p >= s.len() {
            POut::Parsed { v: acc, end: p }
        } else {
            match sp_rule(s, p, fuel) {
                POut::Parsed { v: r, end: p2 } => sp_rules(s, p2, acc.push(r), (fuel - 1) as nat),
                POut::Failed { kind, pos: q } => POut::Failed { kind, pos: q },
                POut::Exhausted => POut::Exhausted,
            }
        }
    }
}

/// What parsing a whole style-sheet string yields: the rule list, or the
/// first failure. The recursion allowance is one more than the input
/// length, which the parser's contract shows is never exhausted.
pub open spec fn sp_stylesheet(src: Seq<char>) -> POut<Seq<RuleV>> {
    sp_rules(src, 0, Seq::empty(), (src.len() + 1) as nat)
}

/// Reads one simple selector starting at `pos`, extending `acc`.
fn parse_simple_selector(
    s: &str,
    pos: usize,
    acc: SimpleSelector,
    Ghost(fuel): Ghost<nat>,
) -> (r: Result<(SimpleSelector, usize), ParseError>)
    requires
        pos as int <= s@.len(),
        fuel >= s@.len() - pos + 1,
    ensures
        match r {
            Ok((sel, end)) => {
                &&& sp_simple_selector(s@, pos as int, acc@, fuel) == (POut::Parsed {
                    v: sel@,
                    end: end as int,
                })
                &&& pos <= end
                &&& end as int <= s@.len()
            },
            Err(e) => sp_simple_selector(s@, pos as int, acc@, fuel) == (POut::Failed::<
                SimpleSelV,
            > { kind: e.kind, pos: e.pos as int }) && e.pos as int <= s@.len(),
        },
    decreases s@.len() - pos,
{
    let n: usize = s.unicode_len();
    if pos >= n {
        return Ok((acc, pos));
    }
    let c = s.get_char(pos);
    if c == '#' {
        let e = seek_ident(s, pos + 1);
        let idt = s.substring_char(pos + 1, e).to_owned();
        let acc2 = SimpleSelector { tag_name: acc.tag_name, id: Some(idt), classes: acc.classes };
        proof {
            assert(acc2@ =~~= (SimpleSelV {
                tag_name: acc@.tag_name,
                id: Some(s@.subrange(pos + 1, e as int)),
                classes: acc@.classes,
            }));
        }
        parse_simple_selector(s, e, acc2, Ghost((fuel - 1) as nat))
    } else if c == '.' {
        let e = seek_ident(s, pos + 1);
        let idt = s.substring_char(pos + 1, e).to_owned();
        let mut cls = acc.classes;
        cls.push(idt);
        let acc2 = SimpleSelector { tag_name: acc.tag_name, id: acc.id, classes: cls };
        proof {
            assert(acc2@.classes =~~= acc@.classes.push(s@.subrange(pos + 1, e as int)));
            assert(acc2@ =~~= (SimpleSelV {
                tag_name: acc@.tag_name,
                id: acc@.id,
                classes: acc@.classes.push(s@.subrange(pos + 1, e as int)),
            }));
        }
        parse_simple_selector(s, e, acc2, Ghost((fuel - 1) as nat))
    } else if c == '*' {
        if pos + 1 >= n {
            return Err(ParseError { kind: ParseErrorKind::UnexpectedEndOfInput, pos: n });
        }
        if !space_char(s.get_char(pos + 1)) {
            return Err(ParseError { kind: ParseErrorKind::UnexpectedCharacter, pos: pos + 1 });
        }
        parse_simple_selector(s, pos + 1, acc, Ghost((fuel - 1) as nat))
    } else if alnum_char(c) {
        let e = seek_ident(s, pos);
        proof {
            lemma_seek(s@, pos as int + 1, ident_cls());
            assert(seek(s@, pos as int, ident_cls()) == seek(s@, pos as int + 1, ident_cls()));
        }
        let idt = s.substring_char(pos, e).to_owned();
        let acc2 = SimpleSelector { tag_name: Some(idt), id: acc.id, classes: acc.classes };
        proof {
            assert(acc2@ =~~= (SimpleSelV {
                tag_name: Some(s@.subrange(pos as int, e as int)),
                id: acc@.id,
                classes: acc@.classes,
            }));
        }
        parse_simple_selector(s, e, acc2, Ghost((fuel - 1) as nat))
    } else {
        Ok((acc, pos))
    }
}

/// Reads a selector list ending at a `{`, which is not consumed.
fn parse_selectors(
    s: &str,
    pos: usize,
    acc: Vec<Selector>,
    Ghost(fuel): Ghost<nat>,
) -> (r: Result<(Vec<Selector>, usize), ParseError>)
    requires
        pos as int <= s@.len(),
        fuel >= s@.len() - pos + 1,
    ensures
        match r {
            Ok((sels, end)) => {
                &&& sp_selectors(s@, pos as int, sels_view(acc@), fuel) == (POut::Parsed {
                    v: sels_view(sels@),
                    end: end as int,
                })
                &&& pos <= end
                &&& end as int <= s@.len()
            },
            Err(e) => sp_selectors(s@, pos as int, sels_view(acc@), fuel) == (POut::Failed::<
                Seq<SelV>,
            > { kind: e.kind, pos: e.pos as int }) && e.pos as int <= s@.len(),
        },
    decreases s@.len() - pos,
{
    let n: usize = s.unicode_len();
    let empty = SimpleSelector { tag_name: None, id: None, classes: Vec::new() };
    proof {
        assert(empty@ =~~= empty_sel());
    }
    let sel = match parse_simple_selector(s, pos, empty, Ghost(fuel)) {
        Ok(p) => p,
        Err(e) => {
            return Err(e);
        },
    };
    let p = sel.1;
    let mut sels = acc;
    sels.push(Selector::Single(sel.0));
    proof {
        assert(sels_view(sels@) =~~= sels_view(acc@).push(SelV::Single(sel.0@)));
    }
    let p2 = seek_space(s, p);
    if p2 >= n {
        return Err(ParseError { kind: ParseErrorKind::UnexpectedEndOfInput, pos: n });
    }
    let c = s.get_char(p2);
    if c == ',' {
        let p3 = seek_space(s, p2 + 1);
        parse_selectors(s, p3, sels, Ghost((fuel - 1) as nat))
    } else if c == '{' {
        Ok((sels, p2))
    } else {
        Err(ParseError { kind: ParseErrorKind::UnexpectedCharacter, pos: p2 })
    }
}

/// Reads one declaration value: a length, a colour, or a keyword.
fn parse_value(s: &str, pos: usize) -> (r: Result<(Value, usize), ParseError>)
    requires
        pos as int <= s@.len(),
    ensures
        match r {
            Ok((v, end)) => {
                &&& sp_value(s@, pos as int) == (POut::Parsed { v: v@, end: end as int })
                &&& pos <= end
                &&& end as int <= s@.len()
            },
            Err(e) => sp_value(s@, pos as int) == (POut::Failed::<ValueV> {
                kind: e.kind,
                pos: e.pos as int,
            }) && e.pos as int <= s@.len(),
        },
{
    let n: usize = s.unicode_len();
    if pos >= n {
        return Err(ParseError { kind: ParseErrorKind::UnexpectedEndOfInput, pos: n });
    }
    let c = s.get_char(pos);
    if digit_char(c) {
        parse_length(s, pos)
    } else if c == '#' {
        parse_color(s, pos)
    } else {
        let e = seek_ident(s, pos);
        let kw = s.substring_char(pos, e).to_owned();
        Ok((Value::Keyword(kw), e))
    }
}

/// Reads a length value: a numeric literal then the pixel unit.
fn parse_length(s: &str, pos: usize) -> (r: Result<(Value, usize), ParseError>)
    requires
        pos as int <= s@.len(),
    ensures
        match r {
            Ok((v, end)) => {
                &&& sp_length(s@, pos as int) == (POut::Parsed { v: v@, end: end as int })
                &&& pos <= end
                &&& end as int <= s@.len()
            },
            Err(e) => sp_length(s@, pos as int) == (POut::Failed::<ValueV> {
                kind: e.kind,
                pos: e.pos as int,
            }) && e.pos as int <= s@.len(),
        },
{
    let n: usize = s.unicode_len();
    let e1 = seek_digit(s, pos);
    let e2 = if e1 < n && s.get_char(e1) == '.' {
        seek_digit(s, e1 + 1)
    } else {
        e1
    };
    let num = s.substring_char(pos, e2).to_owned();
    let ue = seek_ident(s, e2);
    let ghost u = s@.subrange(e2 as int, ue as int);
    if ue - e2 == 2 {
        let c0 = s.get_char(e2);
        let c1 = s.get_char(e2 + 1);
        proof {
            assert(u.len() == 2 && u[0] == s@[e2 as int] && u[1] == s@[e2 as int + 1]);
        }
        if (c0 == 'p' || c0 == 'P') && (c1 == 'x' || c1 == 'X') {
            return Ok((Value::Length(num, Unit::Px), ue));
        }
        return Err(ParseError { kind: ParseErrorKind::UnrecognizedUnit, pos: e2 });
    }
    proof {
        assert(!px_unit(u));
    }
    Err(ParseError { kind: ParseErrorKind::UnrecognizedUnit, pos: e2 })
}

/// Reads a colour value: `#` then six hexadecimal digits.
fn parse_color(s: &str, pos: usize) -> (r: Result<(Value, usize), ParseError>)
    requires
        (pos as int) < s@.len(),
    ensures
        match r {
            Ok((v, end)) => {
                &&& sp_color(s@, pos as int) == (POut::Parsed { v: v@, end: end as int })
                &&& pos <= end
                &&& end as int <= s@.len()
            },
            Err(e) => sp_color(s@, pos as int) == (POut::Failed::<ValueV> {
                kind: e.kind,
                pos: e.pos as int,
            }) && e.pos as int <= s@.len(),
        },
{
    let n: usize = s.unicode_len();
    let e = seek_hex(s, pos + 1);
    proof {
        lemma_seek(s@, pos as int + 1, hex_cls());
    }
    if e - pos >= 7 {
        let r = hex_digit_val(s.get_char(pos + 1)) * 16 + hex_digit_val(s.get_char(pos + 2));
        let g = hex_digit_val(s.get_char(pos + 3)) * 16 + hex_digit_val(s.get_char(pos + 4));
        let b = hex_digit_val(s.get_char(pos + 5)) * 16 + hex_digit_val(s.get_char(pos + 6));
        Ok((Value::Color(Rgba { r, g, b, a: 255 }), pos + 7))
    } else if e >= n {
        Err(ParseError { kind: ParseErrorKind::UnexpectedEndOfInput, pos: n })
    } else {
        Err(ParseError { kind: ParseErrorKind::UnexpectedCharacter, pos: e })
    }
}

/// Reads the declarations of a block, after its `{`, through the closing
/// `}`.
fn parse_decls(
    s: &str,
    pos: usize,
    acc: Vec<Declaration>,
    Ghost(fuel): Ghost<nat>,
) -> (r: Result<(Vec<Declaration>, usize), ParseError>)
    requires
        pos as int <= s@.len(),
        fuel >= s@.len() - pos + 1,
    ensures
        match r {
            Ok((ds, end)) => {
                &&& sp_decls(s@, pos as int, decls_view(acc@), fuel) == (POut::Parsed {
                    v: decls_view(ds@),
                    end: end as int,
                })
                &&& pos < end
                &&& end as int <= s@.len()
            },
            Err(e) => sp_decls(s@, pos as int, decls_view(acc@), fuel) == (POut::Failed::<
                Seq<DeclV>,
            > { kind: e.kind, pos: e.pos as int }) && e.pos as int <= s@.len(),
        },
    decreases s@.len() - pos,
{
    let n: usize = s.unicode_len();
    let p = seek_space(s, pos);
    if p >= n {
        return Err(ParseError { kind: ParseErrorKind::UnexpectedEndOfInput, pos: n });
    }
    if s.get_char(p) == '}' {
        return Ok((acc, p + 1));
    }
    let e = seek_ident(s, p);
    let name = s.substring_char(p, e).to_owned();
    let p1 = seek_space(s, e);
    if p1 >= n {
        return Err(ParseError { kind: ParseErrorKind::UnexpectedEndOfInput, pos: n });
    }
    if s.get_char(p1) != ':' {
        return Err(ParseError { kind: ParseErrorKind::UnexpectedCharacter, pos: p1 });
    }
    let p2 = seek_space(s, p1 + 1);
    let val = match parse_value(s, p2) {
        Ok(v) => v,
        Err(er) => {
            return Err(er);
        },
    };
    let p3 = val.1;
    let p4 = seek_space(s, p3);
    if p4 >= n {
        return Err(ParseError { kind: ParseErrorKind::UnexpectedEndOfInput, pos: n });
    }
    if s.get_char(p4) != ';' {
        return Err(ParseError { kind: ParseErrorKind::UnexpectedCharacter, pos: p4 });
    }
    let mut ds = acc;
    ds.push(Declaration { name, value: val.0 });
    proof {
        assert(decls_view(ds@) =~~= decls_view(acc@).push(
            DeclV { name: s@.subrange(p as int, e as int), value: val.0@ },
        ));
    }
    parse_decls(s, p4 + 1, ds, Ghost((fuel - 1) as nat))
}

/// Reads a declaration block: `{`, declarations, `}`.
fn parse_decl_block(s: &str, pos: usize, Ghost(fuel): Ghost<nat>) -> (r: Result<
    (Vec<Declaration>, usize),
    ParseError,
>)
    requires
        pos as int <= s@.len(),
        fuel >= s@.len() - pos + 1,
    ensures
        match r {
            Ok((ds, end)) => {
                &&& sp_decl_block(s@, pos as int, fuel) == (POut::Parsed {
                    v: decls_view(ds@),
                    end: end as int,
                })
                &&& pos < end
                &&& end as int <= s@.len()
            },
            Err(e) => sp_decl_block(s@, pos as int, fuel) == (POut::Failed::<Seq<DeclV>> {
                kind: e.kind,
                pos: e.pos as int,
            }) && e.pos as int <= s@.len(),
        },
{
    let n: usize = s.unicode_len();
    if pos >= n {
        return Err(ParseError { kind: ParseErrorKind::UnexpectedEndOfInput, pos: n });
    }
    if s.get_char(pos) != '{' {
        return Err(ParseError { kind: ParseErrorKind::UnexpectedCharacter, pos });
    }
    let ds: Vec<Declaration> = Vec::new();
    proof {
        assert(decls_view(ds@) =~~= Seq::<DeclV>::empty());
    }
    parse_decls(s, pos + 1, ds, Ghost(fuel))
}

/// Reads one rule: a selector list then a declaration block.
fn parse_rule(s: &str, pos: usize, Ghost(fuel): Ghost<nat>) -> (r: Result<
    (Rule, usize),
    ParseError,
>)
    requires
        pos as int <= s@.len(),
        fuel >= s@.len() - pos + 1,
    ensures
        match r {
            Ok((rule, end)) => {
                &&& sp_rule(s@, pos as int, fuel) == (POut::Parsed { v: rule@, end: end as int })
                &&& pos < end
                &&& end as int <= s@.len()
            },
            Err(e) => sp_rule(s@, pos as int, fuel) == (POut::Failed::<RuleV> {
                kind: e.kind,
                pos: e.pos as int,
            }) && e.pos as int <= s@.len(),
        },
{
    let empty: Vec<Selector> = Vec::new();
    proof {
        assert(sels_view(empty@) =~~= Seq::<SelV>::empty());
    }
    let sels = match parse_selectors(s, pos, empty, Ghost(fuel)) {
        Ok(p) => p,
        Err(e) => {
            return Err(e);
        },
    };
    let ds = match parse_decl_block(s, sels.1, Ghost(fuel)) {
        Ok(p) => p,
        Err(e) => {
            return Err(e);
        },
    };
    let rule = Rule { selectors: sels.0, declarations: ds.0 };
    proof {
        assert(rule@ =~~= (RuleV {
            selectors: sels_view(sels.0@),
            declarations: decls_view(ds.0@),
        }));
    }
    Ok((rule, ds.1))
}

/// Reads rules separated by whitespace until the end of the input.
fn parse_rules(
    s: &str,
    pos: usize,
    acc: Vec<Rule>,
    Ghost(fuel): Ghost<nat>,
) -> (r: Result<(Vec<Rule>, usize), ParseError>)
    requires
        pos as int <= s@.len(),
        fuel >= s@.len() - pos + 1,
    ensures
        match r {
            Ok((rs, end)) => {
                &&& sp_rules(s@, pos as int, rules_view(acc@), fuel) == (POut::Parsed {
                    v: rules_view(rs@),
                    end: end as int,
                })
                &&& pos <= end
                &&& end as int == s@.len()
            },
            Err(e) => sp_rules(s@, pos as int, rules_view(acc@), fuel) == (POut::Failed::<
                Seq<RuleV>,
            > { kind: e.kind, pos: e.pos as int }) && e.pos as int <= s@.len(),
        },
    decreases s@.len() - pos,
{
    let n: usize = s.unicode_len();
    let p = seek_space(s, pos);
    if p >= n {
        return Ok((acc, p));
    }
    let rule = match parse_rule(s, p, Ghost(fuel)) {
        Ok(q) => q,
        Err(e) => {
            return Err(e);
        },
    };
    let mut rs = acc;
    rs.push(rule.0);
    proof {
        assert(rules_view(rs@) =~~= rules_view(acc@).push(rule.0@));
    }
    parse_rules(s, rule.1, rs, Ghost((fuel - 1) as nat))
}

/// Parses a style-sheet string into a style sheet, returning the rules
/// the grammar gives for it, or the grammar's first failure, with its
/// kind and position, on malformed style text.
pub fn parse(source: &str) -> (r: Result<StyleSheet, ParseError>)
    ensures
        match r {
            Ok(sheet) => sp_stylesheet(source@) == (POut::Parsed {
                v: sheet@.rules,
                end: source@.len() as int,
            }),
            Err(e) => sp_stylesheet(source@) == (POut::Failed::<Seq<RuleV>> {
                kind: e.kind,
                pos: e.pos as int,
            }) && e.pos as int <= source@.len(),
        },
{
    let n: usize = s_len(source);
    let empty: Vec<Rule> = Vec::new();
    proof {
        assert(rules_view(empty@) =~~= Seq::<RuleV>::empty());
    }
    match parse_rules(source, 0, empty, Ghost((n + 1) as nat)) {
        Ok(p) => Ok(StyleSheet { rules: p.0 }),
        Err(e) => Err(e),
    }
}

/// The character length of a string slice.
fn s_len(s: &str) -> (r: usize)
    ensures
        r as int == s@.len(),
{
    s.unicode_len()
}

/// The text of one decimal digit.
pub open spec fn digit_s(n: u8) -> Seq<char> {
    if n == 0 {
        "0"@
    } else if n == 1 {
        "1"@
    } else if n == 2 {
        "2"@
    } else if n == 3 {
        "3"@
    } else if n == 4 {
        "4"@
    } else if n == 5 {
        "5"@
    } else if n == 6 {
        "6"@
    } else if n == 7 {
        "7"@
    } else if n == 8 {
        "8"@
    } else {
        "9"@
    }
}

/// The decimal text of a byte, without leading zeroes.
pub open spec fn sp_dec_u8(n: u8) -> Seq<char> {
    if n < 10 {
        digit_s(n)
    } else if n < 100 {
        digit_s(n / 10) + digit_s(n % 10)
    } else {
        digit_s(n / 100) + digit_s((n / 10) % 10) + digit_s(n % 10)
    }
}

/// The text of a value: the keyword, the numeric literal with its unit,
/// or `rgba(r, g, b, a)` with decimal channels.
pub open spec fn render_value(v: ValueV) -> Seq<char> {
    match v {
        ValueV::Keyword(k) => k,
        ValueV::Length(num, u) => num + "px"@,
        ValueV::Color(c) => "rgba("@ + sp_dec_u8(c.r) + ", "@ + sp_dec_u8(c.g) + ", "@ + sp_dec_u8(
            c.b,
        ) + ", "@ + sp_dec_u8(c.a) + ")"@,
    }
}

/// The text of a declaration: `name: value;`.
pub open spec fn render_decl(d: DeclV) -> Seq<char> {
    d.name + ": "@ + render_value(d.value) + ";"@
}

/// The concatenated text of declarations, with no separator.
pub open spec fn render_decls(ds: Seq<DeclV>) -> Seq<char>
    decreases ds.len(),
{
    if ds.len() == 0 {
        Seq::empty()
    } else {
        render_decl(ds[0]) + render_decls(ds.drop_first())
    }
}

/// The text of class matchers: a `.` before each class name.
pub open spec fn render_classes(cs: Seq<Seq<char>>) -> Seq<char>
    decreases cs.len(),
{
    if cs.len() == 0 {
        Seq::empty()
    } else {
        "."@ + cs[0] + render_classes(cs.drop_first())
    }
}

/// The text of a selector: the tag name if any, `#` and the id if any,
/// then the class matchers.
pub open spec fn render_selector(sel: SelV) -> Seq<char> {
    match sel {
        SelV::Single(ss) => (match ss.tag_name {
            Some(t) => t,
            None => Seq::empty(),
        }) + (match ss.id {
            Some(i) => "#"@ + i,
            None => Seq::empty(),
        }) + render_classes(ss.classes),
    }
}

/// The comma-joined text of a selector list.
pub open spec fn render_selectors(ss: Seq<SelV>) -> Seq<char>
    decreases ss.len(),
{
    if ss.len() == 0 {
        Seq::empty()
    } else if ss.len() == 1 {
        render_selector(ss[0])
    } else {
        render_selector(ss[0]) + ", "@ + render_selectors(ss.drop_first())
    }
}

/// The text of a rule: its comma-joined selectors, `{`, a newline, one
/// indented line with all declarations run together, a newline, and `}`.
pub open spec fn render_rule(r: RuleV) -> Seq<char> {
    render_selectors(r.selectors) + " {\n  "@ + render_decls(r.declarations) + "\n}"@
}

/// The text of a style sheet: each rule on a block of its own.
pub open spec fn render_rules(rs: Seq<RuleV>) -> Seq<char>
    decreases rs.len(),
{
    if rs.len() == 0 {
        Seq::empty()
    } else {
        render_rule(rs[0]) + "\n"@ + render_rules(rs.drop_first())
    }
}

/// The text of one decimal digit, as a string slice.
fn digit_str(n: u8) -> (r: &'static str)
    requires
        n < 10,
    ensures
        r@ == digit_s(n),
{
    if n == 0 {
        "0"
    } else if n == 1 {
        "1"
    } else if n == 2 {
        "2"
    } else if n == 3 {
        "3"
    } else if n == 4 {
        "4"
    } else if n == 5 {
        "5"
    } else if n == 6 {
        "6"
    } else if n == 7 {
        "7"
    } else if n == 8 {
        "8"
    } else {
        "9"
    }
}

/// Appends the decimal text of a byte to `out`.
fn append_dec_u8(out: &mut String, n: u8)
    ensures
        final(out)@ == old(out)@ + sp_dec_u8(n),
{
    if n < 10 {
        out.append(digit_str(n));
    } else if n < 100 {
        out.append(digit_str(n / 10));
        out.append(digit_str(n % 10));
    } else {
        out.append(digit_str(n / 100));
        out.append(digit_str((n / 10) % 10));
        out.append(digit_str(n % 10));
    }
    proof {
        assert(out@ =~= old(out)@ + sp_dec_u8(n));
    }
}

impl Value {
    /// The text of this value.
    pub fn to_text(&self) -> (r: String)
        ensures
            r@ == render_value(self@),
    {
        let mut out = String::new();
        match self {
            Value::Keyword(k) => {
                out.append(k.as_str());
            },
            Value::Length(num, u) => {
                match u {
                    Unit::Px => {
                        out.append(num.as_str());
                        out.append("px");
                    },
                }
            },
            Value::Color(c) => {
                out.append("rgba(");
                append_dec_u8(&mut out, c.r);
                out.append(", ");
                append_dec_u8(&mut out, c.g);
                out.append(", ");
                append_dec_u8(&mut out, c.b);
                out.append(", ");
                append_dec_u8(&mut out, c.a);
                out.append(")");
            },
        }
        proof {
            assert(out@ =~= render_value(self@));
        }
        out
    }
}

impl Declaration {
    /// The text of this declaration: `name: value;`.
    pub fn to_text(&self) -> (r: String)
        ensures
            r@ == render_decl(self@),
    {
        let mut out = String::new();
        out.append(self.name.as_str());
        out.append(": ");
        let v = self.value.to_text();
        out.append(v.as_str());
        out.append(";");
        proof {
            assert(out@ =~= render_decl(self@));
        }
        out
    }
}

impl Selector {
    /// The text of this selector.
    pub fn to_text(&self) -> (r: String)
        ensures
            r@ == render_selector(self@),
    {
        let Selector::Single(ss) = self;
        let mut out = String::new();
        match &ss.tag_name {
            Some(t) => {
                out.append(t.as_str());
            },
            None => {},
        }
        match &ss.id {
            Some(i) => {
                out.append("#");
                out.append(i.as_str());
            },
            None => {},
        }
        let k: usize = ss.classes.len();
        proof {
            assert(strs_view(ss.classes@).subrange(0, k as int) =~= strs_view(ss.classes@));
            assert(out@ + render_classes(strs_view(ss.classes@)) =~= render_selector(self@));
        }
        let mut i: usize = 0;
        while i < k
            invariant
                k == ss.classes.len(),
                0 <= i <= k,
                out@ + render_classes(strs_view(ss.classes@).subrange(i as int, k as int))
                    == render_selector(self@),
            decreases k - i,
        {
            proof {
                let cs = strs_view(ss.classes@);
                assert(cs.subrange(i as int, k as int).drop_first() =~= cs.subrange(
                    i as int + 1,
                    k as int,
                ));
                assert(cs.subrange(i as int, k as int)[0] == ss.classes@[i as int]@);
            }
            out.append(".");
            out.append(ss.classes[i].as_str());
            i = i + 1;
        }
        proof {
            assert(render_classes(strs_view(ss.classes@).subrange(k as int, k as int))
                =~= Seq::<char>::empty());
            assert(out@ =~= render_selector(self@));
        }
        out
    }
}

impl Rule {
    /// The text of this rule: selectors, then the declaration block.
    pub fn to_text(&self) -> (r: String)
        ensures
            r@ == render_rule(self@),
    {
        let mut out = String::new();
        let k: usize = self.selectors.len();
        proof {
            assert(sels_view(self.selectors@).subrange(0, k as int) =~= sels_view(
                self.selectors@,
            ));
        }
        let mut i: usize = 0;
        while i < k
            invariant
                k == self.selectors.len(),
                0 <= i <= k,
                out@ + render_selectors(sels_view(self.selectors@).subrange(i as int, k as int))
                    == render_selectors(sels_view(self.selectors@)),
            decreases k - i,
        {
            proof {
                let ss = sels_view(self.selectors@);
                assert(ss.subrange(i as int, k as int).drop_first() =~= ss.subrange(
                    i as int + 1,
                    k as int,
                ));
                assert(ss.subrange(i as int, k as int)[0] == self.selectors@[i as int]@);
            }
            let t = self.selectors[i].to_text();
            out.append(t.as_str());
            if i + 1 < k {
                out.append(", ");
            }
            i = i + 1;
        }
        proof {
            assert(render_selectors(sels_view(self.selectors@).subrange(k as int, k as int))
                =~= Seq::<char>::empty());
        }
        out.append(" {\n  ");
        let m: usize = self.declarations.len();
        let mut j: usize = 0;
        let ghost head = out@;
        proof {
            assert(decls_view(self.declarations@).subrange(0, m as int) =~= decls_view(
                self.declarations@,
            ));
        }
        while j < m
            invariant
                m == self.declarations.len(),
                0 <= j <= m,
                out@ + render_decls(decls_view(self.declarations@).subrange(j as int, m as int))
                    == head + render_decls(decls_view(self.declarations@)),
            decreases m - j,
        {
            proof {
                let ds = decls_view(self.declarations@);
                assert(ds.subrange(j as int, m as int).drop_first() =~= ds.subrange(
                    j as int + 1,
                    m as int,
                ));
                assert(ds.subrange(j as int, m as int)[0] == self.declarations@[j as int]@);
            }
            let t = self.declarations[j].to_text();
            out.append(t.as_str());
            j = j + 1;
        }
        proof {
            assert(render_decls(decls_view(self.declarations@).subrange(m as int, m as int))
                =~= Seq::<char>::empty());
        }
        out.append("\n}");
        proof {
            assert(out@ =~= render_rule(self@));
        }
        out
    }
}

impl StyleSheet {
    /// The text of this style sheet: each rule on a block of its own.
    pub fn to_text(&self) -> (r: String)
        ensures
            r@ == render_rules(self@.rules),
    {
        let mut out = String::new();
        let k: usize = self.rules.len();
        proof {
            assert(rules_view(self.rules@).subrange(0, k as int) =~= rules_view(self.rules@));
        }
        let mut i: usize = 0;
        while i < k
            invariant
                k == self.rules.len(),
                0 <= i <= k,
                out@ + render_rules(rules_view(self.rules@).subrange(i as int, k as int))
                    == render_rules(rules_view(self.rules@)),
            decreases k - i,
        {
            proof {
                let rs = rules_view(self.rules@);
                assert(rs.subrange(i as int, k as int).drop_first() =~= rs.subrange(
                    i as int + 1,
                    k as int,
                ));
                assert(rs.subrange(i as int, k as int)[0] == self.rules@[i as int]@);
            }
            let t = self.rules[i].to_text();
            out.append(t.as_str());
            out.append("\n");
            i = i + 1;
        }
        proof {
            assert(render_rules(rules_view(self.rules@).subrange(k as int, k as int))
                =~= Seq::<char>::empty());
            assert(out@ =~= render_rules(self@.rules));
        }
        out
    }
}

} // verus!
