//! The HTML tokenizer: a pull-driven state machine over the characters of a
//! document, with a one-character reconsume latch.

use vstd::prelude::*;
use crate::attribute::{attr_with_char, Attribute};
use crate::text::{chars_of, push_char};

verus! {

/// The states of the machine.
#[derive(Debug, Clone, Copy, PartialEq, Eq)]
pub enum State {
    Data,
    TagOpen,
    EndTagOpen,
    TagName,
    BeforeAttributeName,
    AttributeName,
    AfterAttributeName,
    BeforeAttributeValue,
    AttributeValueDoubleQuoted,
    AttributeValueSingleQuoted,
    AttributeValueUnquoted,
    AfterAttributeValueQuoted,
    SelfClosingStartTag,
    ScriptData,
    ScriptDataLessThanSign,
    ScriptDataEndTagOpen,
    ScriptDataEndTagName,
    TemporaryBuffer,
}

/// A token handed to the tree builder.
#[derive(Debug, Clone, PartialEq, Eq)]
pub enum HtmlToken {
    StartTag { tag: String, self_closing: bool, attributes: Vec<Attribute> },
    EndTag { tag: String },
    Char(char),
    Eof,
}

/// A token with its strings seen as character sequences.
pub enum TokenView {
    StartTag { tag: Seq<char>, self_closing: bool, attributes: Seq<(Seq<char>, Seq<char>)> },
    EndTag { tag: Seq<char> },
    Char(char),
    Eof,
}

impl View for HtmlToken {
    type V = TokenView;

    open spec fn view(&self) -> TokenView {
        match self {
            HtmlToken::StartTag { tag, self_closing, attributes } => TokenView::StartTag {
                tag: tag@,
                self_closing: *self_closing,
                attributes: attributes@.map_values(|a: Attribute| a@),
            },
            HtmlToken::EndTag { tag } => TokenView::EndTag { tag: tag@ },
            HtmlToken::Char(c) => TokenView::Char(*c),
            HtmlToken::Eof => TokenView::Eof,
        }
    }
}

pub open spec fn token_opt_view(t: Option<HtmlToken>) -> Option<TokenView> {
    match t {
        Some(x) => Some(x@),
        None => None,
    }
}

/// The tokenizer; `input` is the whole document and `pos` the next position
/// to read.
pub struct HtmlTokenizer {
    state: State,
    pos: usize,
    reconsume: bool,
    latest_token: Option<HtmlToken>,
    input: Vec<char>,
    buf: Vec<char>,
}

/// The tokenizer's record as mathematical values.
pub struct TokenizerView {
    pub state: State,
    pub pos: int,
    pub reconsume: bool,
    pub latest: Option<TokenView>,
    pub input: Seq<char>,
    pub buf: Seq<char>,
}

impl View for HtmlTokenizer {
    type V = TokenizerView;

    closed spec fn view(&self) -> TokenizerView {
        TokenizerView {
            state: self.state,
            pos: self.pos as int,
            reconsume: self.reconsume,
            latest: token_opt_view(self.latest_token),
            input: self.input@,
            buf: self.buf@,
        }
    }
}

// ---------------------------------------------------------------------------
// Characters
pub open spec fn is_upper(c: char) -> bool {
    'A' <= c && c <= 'Z'
}

pub open spec fn is_alpha(c: char) -> bool {
    is_upper(c) || ('a' <= c && c <= 'z')
}

/// ASCII lower case of `c`; every other character is left as it is.
pub open spec fn lower(c: char) -> char {
    if is_upper(c) {
        ((c as u32 + 32) as u8) as char
    } else {
        c
    }
}

/// `c` is a character (not the end of input) and an ASCII letter.
pub open spec fn alpha_opt(c: Option<char>) -> bool {
    c is Some && is_alpha(c->Some_0)
}

fn to_lower(c: char) -> (r: char)
    ensures
        r == lower(c),
{
    if 'A' <= c && c <= 'Z' {
        ((c as u32 + 32) as u8) as char
    } else {
        c
    }
}

fn is_ascii_alpha(c: Option<char>) -> (r: bool)
    ensures
        r == alpha_opt(c),
{
    match c {
        Some(x) => ('A' <= x && x <= 'Z') || ('a' <= x && x <= 'z'),
        None => false,
    }
}

// ---------------------------------------------------------------------------
// The token under construction
/// A fresh start tag (`start`) or end tag with an empty name.
pub open spec fn new_tag(start: bool) -> TokenView {
    if start {
        TokenView::StartTag { tag: Seq::empty(), self_closing: false, attributes: Seq::empty() }
    } else {
        TokenView::EndTag { tag: Seq::empty() }
    }
}

/// Appends `c` to the name of a tag; anything else is left as it is.
pub open spec fn with_tag_char(t: Option<TokenView>, c: char) -> Option<TokenView> {
    match t {
        Some(TokenView::StartTag { tag, self_closing, attributes }) => Some(
            TokenView::StartTag { tag: tag.push(c), self_closing, attributes },
        ),
        Some(TokenView::EndTag { tag }) => Some(TokenView::EndTag { tag: tag.push(c) }),
        _ => t,
    }
}

/// Adds an empty attribute to a start tag; anything else (an end tag carries
/// no attributes) is left as it is.
pub open spec fn with_new_attribute(t: Option<TokenView>) -> Option<TokenView> {
    match t {
        Some(TokenView::StartTag { tag, self_closing, attributes }) => Some(
            TokenView::StartTag {
                tag,
                self_closing,
                attributes: attributes.push((Seq::empty(), Seq::empty())),
            },
        ),
        _ => t,
    }
}

/// Appends `c` to the name or value of a start tag's last attribute.
pub open spec fn with_attribute_char(t: Option<TokenView>, c: char, is_name: bool) -> Option<
    TokenView,
> {
    match t {
        Some(TokenView::StartTag { tag, self_closing, attributes }) => if attributes.len() > 0 {
            Some(
                TokenView::StartTag {
                    tag,
                    self_closing,
                    attributes: attributes.update(
                        attributes.len() - 1,
                        attr_with_char(attributes.last(), c, is_name),
                    ),
                },
            )
        } else {
            t
        },
        _ => t,
    }
}

/// Marks a start tag as self-closing.
pub open spec fn with_self_closing(t: Option<TokenView>) -> Option<TokenView> {
    match t {
        Some(TokenView::StartTag { tag, self_closing, attributes }) => Some(
            TokenView::StartTag { tag, self_closing: true, attributes },
        ),
        _ => t,
    }
}

// ---------------------------------------------------------------------------
// One step of the machine
/// The character at position `i`, or none past the end.
pub open spec fn char_at(input: Seq<char>, i: int) -> Option<char> {
    if 0 <= i < input.len() {
        Some(input[i])
    } else {
        None
    }
}

/// The record is usable: `pos` stays within one past the end, and the latch
/// only stands after a first read.
pub open spec fn wf(s: TokenizerView) -> bool {
    &&& 0 <= s.pos <= s.input.len() + 1
    &&& s.reconsume ==> s.pos >= 1
    &&& s.input.len() < usize::MAX
}

/// One read: the latched character again, or the next one. Reading at the end
/// yields none and leaves `pos` one past the end, where the end-of-input test
/// `pos > len` holds.
pub open spec fn read(s: TokenizerView) -> (TokenizerView, Option<char>) {
    if s.reconsume {
        (TokenizerView { reconsume: false, ..s }, char_at(s.input, s.pos - 1))
    } else if s.pos < s.input.len() {
        (TokenizerView { pos: s.pos + 1, ..s }, Some(s.input[s.pos]))
    } else {
        (TokenizerView { pos: s.input.len() + 1int, ..s }, None)
    }
}

/// Go on in state `st`.
pub open spec fn goto(s: TokenizerView, st: State) -> (TokenizerView, bool, Option<TokenView>) {
    (TokenizerView { state: st, ..s }, false, None)
}

/// Go on in state `st`, reading the same character again.
pub open spec fn regoto(s: TokenizerView, st: State) -> (TokenizerView, bool, Option<TokenView>) {
    (TokenizerView { state: st, reconsume: true, ..s }, false, None)
}

/// Go on with a changed token under construction.
pub open spec fn edit(s: TokenizerView, t: Option<TokenView>) -> (
    TokenizerView,
    bool,
    Option<TokenView>,
) {
    (TokenizerView { latest: t, ..s }, false, None)
}

/// Hand out `t` and stop.
pub open spec fn yield_token(s: TokenizerView, t: TokenView) -> (
    TokenizerView,
    bool,
    Option<TokenView>,
) {
    (s, true, Some(t))
}

/// Hand out the token under construction (if any) and go back to `Data`.
pub open spec fn emit_latest(s: TokenizerView) -> (TokenizerView, bool, Option<TokenView>) {
    (TokenizerView { state: State::Data, latest: None, ..s }, true, s.latest)
}

/// What the state `s.state` does with the character `c` just read (none at
/// the end of input): the next record, whether the pull stops, and what it
/// hands out if it does.
pub open spec fn transition(s: TokenizerView, c: Option<char>) -> (
    TokenizerView,
    bool,
    Option<TokenView>,
) {
    match s.state {
        State::Data => {
            if c == Some('<') {
                goto(s, State::TagOpen)
            } else {
                match c {
                    Some(x) => yield_token(s, TokenView::Char(x)),
                    None => yield_token(s, TokenView::Eof),
                }
            }
        },
        State::TagOpen => {
            if c == Some('/') {
                goto(s, State::EndTagOpen)
            } else if alpha_opt(c) {
                regoto(TokenizerView { latest: Some(new_tag(true)), ..s }, State::TagName)
            } else if c is None {
                yield_token(s, TokenView::Eof)
            } else {
                regoto(s, State::Data)
            }
        },
        State::EndTagOpen => {
            if c is None {
                yield_token(s, TokenView::Eof)
            } else if alpha_opt(c) {
                regoto(TokenizerView { latest: Some(new_tag(false)), ..s }, State::TagName)
            } else {
                goto(s, State::EndTagOpen)
            }
        },
        State::TagName => {
            match c {
                Some(' ') => goto(s, State::BeforeAttributeName),
                Some('/') => goto(s, State::SelfClosingStartTag),
                Some('>') => emit_latest(s),
                Some(x) => edit(s, with_tag_char(s.latest, lower(x))),
                None => yield_token(s, TokenView::Eof),
            }
        },
        State::BeforeAttributeName => {
            if c == Some('/') || c == Some('>') || c is None {
                regoto(s, State::AfterAttributeName)
            } else {
                regoto(
                    TokenizerView { latest: with_new_attribute(s.latest), ..s },
                    State::AttributeName,
                )
            }
        },
        State::AttributeName => {
            match c {
                Some(' ') | Some('/') | Some('>') | None => regoto(s, State::AfterAttributeName),
                Some('=') => goto(s, State::BeforeAttributeValue),
                Some(x) => edit(s, with_attribute_char(s.latest, lower(x), true)),
            }
        },
        State::AfterAttributeName => {
            match c {
                Some(' ') => goto(s, State::AfterAttributeName),
                Some('/') => goto(s, State::SelfClosingStartTag),
                Some('=') => goto(s, State::BeforeAttributeValue),
                Some('>') => emit_latest(s),
                None => yield_token(s, TokenView::Eof),
                Some(_) => regoto(
                    TokenizerView { latest: with_new_attribute(s.latest), ..s },
                    State::AttributeName,
                ),
            }
        },
        State::BeforeAttributeValue => {
            match c {
                Some(' ') => goto(s, State::BeforeAttributeValue),
                Some('"') => goto(s, State::AttributeValueDoubleQuoted),
                Some('\'') => goto(s, State::AttributeValueSingleQuoted),
                _ => regoto(s, State::AttributeValueUnquoted),
            }
        },
        State::AttributeValueDoubleQuoted => {
            match c {
                Some('"') => goto(s, State::AfterAttributeValueQuoted),
                Some(x) => edit(s, with_attribute_char(s.latest, x, false)),
                None => yield_token(s, TokenView::Eof),
            }
        },
        State::AttributeValueSingleQuoted => {
            match c {
                Some('\'') => goto(s, State::AfterAttributeValueQuoted),
                Some(x) => edit(s, with_attribute_char(s.latest, x, false)),
                None => yield_token(s, TokenView::Eof),
            }
        },
        State::AttributeValueUnquoted => {
            match c {
                Some(' ') => goto(s, State::BeforeAttributeName),
                Some('>') => emit_latest(s),
                Some(x) => edit(s, with_attribute_char(s.latest, x, false)),
                None => yield_token(s, TokenView::Eof),
            }
        },
        State::AfterAttributeValueQuoted => {
            match c {
                Some(' ') => goto(s, State::BeforeAttributeName),
                Some('/') => goto(s, State::SelfClosingStartTag),
                Some('>') => emit_latest(s),
                None => yield_token(s, TokenView::Eof),
                Some(_) => regoto(s, State::BeforeAttributeValue),
            }
        },
        State::SelfClosingStartTag => {
            match c {
                Some('>') => emit_latest(TokenizerView { latest: with_self_closing(s.latest), ..s }),
                None => yield_token(s, TokenView::Eof),
                Some(_) => goto(s, State::SelfClosingStartTag),
            }
        },
        State::ScriptData => {
            match c {
                Some('<') => goto(s, State::ScriptDataLessThanSign),
                Some(x) => yield_token(s, TokenView::Char(x)),
                None => yield_token(s, TokenView::Eof),
            }
        },
        State::ScriptDataLessThanSign => {
            if c == Some('/') {
                goto(TokenizerView { buf: Seq::empty(), ..s }, State::ScriptDataEndTagOpen)
            } else {
                (
                    TokenizerView { state: State::ScriptData, reconsume: true, ..s },
                    true,
                    Some(TokenView::Char('<')),
                )
            }
        },
        State::ScriptDataEndTagOpen => {
            if alpha_opt(c) {
                regoto(
                    TokenizerView { latest: Some(new_tag(false)), ..s },
                    State::ScriptDataEndTagName,
                )
            } else {
                (
                    TokenizerView { state: State::ScriptData, reconsume: true, ..s },
                    true,
                    Some(TokenView::Char('<')),
                )
            }
        },
        State::ScriptDataEndTagName => {
            if c == Some('>') {
                emit_latest(s)
            } else if alpha_opt(c) {
                let x = c->Some_0;
                edit(
                    TokenizerView { buf: s.buf.push(x), ..s },
                    with_tag_char(s.latest, lower(x)),
                )
            } else {
                let tail = match c {
                    Some(x) => seq![x],
                    None => Seq::empty(),
                };
                goto(
                    TokenizerView { buf: seq!['<', '/'] + s.buf + tail, ..s },
                    State::TemporaryBuffer,
                )
            }
        },
        State::TemporaryBuffer => {
            if s.buf.len() == 0 {
                regoto(s, State::ScriptData)
            } else {
                (
                    TokenizerView { reconsume: true, buf: s.buf.drop_first(), ..s },
                    true,
                    Some(TokenView::Char(s.buf[0])),
                )
            }
        },
    }
}

/// One read followed by the transition on what was read.
pub open spec fn step(s: TokenizerView) -> (TokenizerView, bool, Option<TokenView>) {
    let (s1, c) = read(s);
    transition(s1, c)
}

// ---------------------------------------------------------------------------
// Termination
/// How many more times the latch can pass the same character on, for the
/// current state and the latched character `c`.
pub open spec fn latch_rank(st: State, c: Option<char>) -> int {
    match st {
        State::TagOpen | State::EndTagOpen | State::BeforeAttributeValue
        | State::ScriptDataLessThanSign | State::ScriptDataEndTagOpen
        | State::TemporaryBuffer => 1,
        State::BeforeAttributeName | State::AfterAttributeValueQuoted => 2,
        State::AttributeName => if c == Some(' ') || c == Some('/') || c == Some('>') || c is None {
            1
        } else {
            0
        },
        State::AfterAttributeName => if c is None || c == Some(' ') || c == Some('/') || c
            == Some('=') || c == Some('>') {
            0
        } else {
            1
        },
        State::ScriptDataEndTagName => if c is None {
            2
        } else {
            0
        },
        _ => 0,
    }
}

/// A bound on the reads left in the current pull.
pub open spec fn measure(s: TokenizerView) -> int {
    40 * (s.input.len() + 1 - s.pos) + if s.reconsume {
        20 + latch_rank(s.state, char_at(s.input, s.pos - 1))
    } else if s.pos > s.input.len() {
        if s.state == State::ScriptDataEndTagName {
            22int
        } else {
            21int
        }
    } else {
        0int
    }
}

/// A step that does not stop keeps the record usable and lowers the measure.
pub proof fn lemma_step_decreases(s: TokenizerView)
    requires
        wf(s),
    ensures
        wf(step(s).0),
        measure(s) >= 0,
        !step(s).1 ==> 0 <= measure(step(s).0) < measure(s),
{
}

/// The rest of a pull from `s`: steps until one hands something out.
pub open spec fn run(s: TokenizerView) -> (TokenizerView, Option<TokenView>)
    decreases measure(s),
    via run_decreases
{
    if !wf(s) {
        (s, None)
    } else {
        let (s2, done, out) = step(s);
        if done {
            (s2, out)
        } else {
            run(s2)
        }
    }
}

#[via_fn]
proof fn run_decreases(s: TokenizerView) {
    if wf(s) {
        lemma_step_decreases(s);
    }
}

/// One pull: nothing once `pos` has reached the end, else the rest of the run.
pub open spec fn pull(s: TokenizerView) -> (TokenizerView, Option<TokenView>) {
    if s.pos >= s.input.len() {
        (s, None)
    } else {
        run(s)
    }
}

// ---------------------------------------------------------------------------
// Names of tags and attributes
/// No ASCII capital letter in `s`.
pub open spec fn no_upper(s: Seq<char>) -> bool {
    forall|i: int| 0 <= i < s.len() ==> !is_upper(#[trigger] s[i])
}

/// `s` with every ASCII capital letter lower-cased.
pub open spec fn fold_case(s: Seq<char>) -> Seq<char> {
    s.map_values(|c: char| lower(c))
}

/// The tag name of a start or end tag.
pub open spec fn tag_name(t: TokenView) -> Option<Seq<char>> {
    match t {
        TokenView::StartTag { tag, .. } => Some(tag),
        TokenView::EndTag { tag } => Some(tag),
        _ => None,
    }
}

/// Tag and attribute names hold no ASCII capital letter.
pub open spec fn names_folded(t: TokenView) -> bool {
    match t {
        TokenView::StartTag { tag, attributes, .. } => no_upper(tag) && forall|i: int|
            0 <= i < attributes.len() ==> no_upper(#[trigger] attributes[i].0),
        TokenView::EndTag { tag } => no_upper(tag),
        _ => true,
    }
}

/// A token fit to hand out: folded names, and a tag name that is not empty.
pub open spec fn token_ok(t: TokenView) -> bool {
    &&& names_folded(t)
    &&& tag_name(t) is Some ==> tag_name(t)->Some_0.len() > 0
}

/// Right after a tag was created: its first letter is latched for `TagName`
/// or `ScriptDataEndTagName`.
pub open spec fn first_letter_latched(s: TokenizerView) -> bool {
    &&& s.reconsume
    &&& s.state == State::TagName || s.state == State::ScriptDataEndTagName
    &&& alpha_opt(char_at(s.input, s.pos - 1))
}

/// Between two reads of a pull: the token under construction has folded
/// names, and its tag name is empty only right after it was created.
pub open spec fn inner_ok(s: TokenizerView) -> bool {
    &&& wf(s)
    &&& s.latest is Some ==> names_folded(s.latest->Some_0)
    &&& (s.latest is Some && tag_name(s.latest->Some_0) is Some && tag_name(
        s.latest->Some_0,
    )->Some_0.len() == 0) ==> first_letter_latched(s)
}

/// Between two pulls.
pub open spec fn outer_ok(s: TokenizerView) -> bool {
    &&& wf(s)
    &&& s.latest is Some ==> token_ok(s.latest->Some_0)
}

/// Lower-casing lands outside the capitals and is idempotent.
pub proof fn lemma_lower(c: char)
    ensures
        !is_upper(lower(c)),
        lower(lower(c)) == lower(c),
        !is_upper(c) ==> lower(c) == c,
{
}

/// Folding the case of a name twice gives what folding it once gives, and a
/// folded name has no capital letter left.
pub proof fn lemma_fold_case_idempotent(s: Seq<char>)
    ensures
        fold_case(fold_case(s)) == fold_case(s),
        no_upper(fold_case(s)),
        no_upper(s) ==> fold_case(s) == s,
{
    assert forall|i: int| 0 <= i < s.len() implies #[trigger] fold_case(fold_case(s))[i]
        == fold_case(s)[i] by {
        lemma_lower(s[i]);
    }
    assert(fold_case(fold_case(s)) =~= fold_case(s));
    assert forall|i: int| 0 <= i < s.len() implies !is_upper(#[trigger] fold_case(s)[i]) by {
        lemma_lower(s[i]);
    }
    if no_upper(s) {
        assert forall|i: int| 0 <= i < s.len() implies #[trigger] fold_case(s)[i] == s[i] by {
            lemma_lower(s[i]);
        }
        assert(fold_case(s) =~= s);
    }
}

proof fn lemma_push_no_upper(s: Seq<char>, c: char)
    requires
        no_upper(s),
        !is_upper(c),
    ensures
        no_upper(s.push(c)),
{
    assert forall|i: int| 0 <= i < s.push(c).len() implies !is_upper(#[trigger] s.push(c)[i]) by {
        if i < s.len() {
            assert(s.push(c)[i] == s[i]);
        }
    }
}

proof fn lemma_edits_keep_names(t: Option<TokenView>, c: char, is_name: bool)
    requires
        t is Some ==> names_folded(t->Some_0),
        is_name ==> !is_upper(c),
    ensures
        with_tag_char(t, lower(c)) is Some ==> names_folded(with_tag_char(t, lower(c))->Some_0),
        with_new_attribute(t) is Some ==> names_folded(with_new_attribute(t)->Some_0),
        with_attribute_char(t, c, is_name) is Some ==> names_folded(
            with_attribute_char(t, c, is_name)->Some_0,
        ),
        with_self_closing(t) is Some ==> names_folded(with_self_closing(t)->Some_0),
{
    lemma_lower(c);
    match t {
        Some(TokenView::StartTag { tag, self_closing, attributes }) => {
            lemma_push_no_upper(tag, lower(c));
            let a2 = attributes.push((Seq::<char>::empty(), Seq::<char>::empty()));
            assert forall|i: int| 0 <= i < a2.len() implies no_upper(#[trigger] a2[i].0) by {
                if i < attributes.len() {
                    assert(a2[i] == attributes[i]);
                }
            }
            if attributes.len() > 0 {
                let last = attributes.last();
                if is_name {
                    lemma_push_no_upper(last.0, c);
                }
                let a3 = attributes.update(
                    attributes.len() - 1,
                    attr_with_char(attributes.last(), c, is_name),
                );
                assert forall|i: int| 0 <= i < a3.len() implies no_upper(#[trigger] a3[i].0) by {
                    if i < attributes.len() - 1 {
                        assert(a3[i] == attributes[i]);
                    }
                }
            }
        },
        Some(TokenView::EndTag { tag }) => {
            lemma_push_no_upper(tag, lower(c));
        },
        _ => {},
    }
}

/// Each step keeps the names folded and the empty tag name confined to the
/// moment of creation; a step that stops leaves a record fit for the next
/// pull and hands out a token fit for the tree builder.
pub proof fn lemma_step_keeps_names(s: TokenizerView)
    requires
        inner_ok(s),
    ensures
        inner_ok(step(s).0),
        step(s).1 ==> outer_ok(step(s).0),
        step(s).1 && step(s).2 is Some ==> token_ok(step(s).2->Some_0),
{
    lemma_step_decreases(s);
    let (s1, c) = read(s);
    match c {
        Some(x) => {
            lemma_edits_keep_names(s.latest, x, false);
            lemma_edits_keep_names(s.latest, lower(x), true);
            lemma_lower(x);
        },
        None => {},
    }
    lemma_edits_keep_names(s.latest, 'a', true);
}

/// A pull started from a record fit for it ends in one, and what it hands
/// out has folded names and a tag name that is not empty.
pub proof fn lemma_run_keeps_names(s: TokenizerView)
    requires
        inner_ok(s),
    ensures
        outer_ok(run(s).0),
        run(s).1 is Some ==> token_ok(run(s).1->Some_0),
    decreases measure(s),
{
    lemma_step_decreases(s);
    lemma_step_keeps_names(s);
    if !step(s).1 {
        lemma_run_keeps_names(step(s).0);
    }
}

// ---------------------------------------------------------------------------
// Laws of single steps
/// A read under the latch gives the character before `pos` again, leaves
/// `pos` where it is and clears the latch. Where the step then latches again
/// and the pull goes on, the latch rank drops; it starts at two at most, so
/// within one pull a character is read at most three times in a row.
pub proof fn lemma_latch_chain(s: TokenizerView)
    requires
        wf(s),
        s.reconsume,
    ensures
        read(s).0.pos == s.pos,
        !read(s).0.reconsume,
        read(s).1 == char_at(s.input, s.pos - 1),
        0 <= latch_rank(s.state, char_at(s.input, s.pos - 1)) <= 2,
        step(s).0.reconsume && !step(s).1 ==> step(s).0.pos == s.pos && latch_rank(
            step(s).0.state,
            char_at(s.input, s.pos - 1),
        ) < latch_rank(s.state, char_at(s.input, s.pos - 1)),
{
}

/// In the three attribute-value states a character other than the closing
/// one is appended to the value exactly as read, capitals included.
pub proof fn lemma_value_case_kept(s: TokenizerView, x: char)
    requires
        s.state == State::AttributeValueDoubleQuoted && x != '"' || s.state
            == State::AttributeValueSingleQuoted && x != '\'' || s.state
            == State::AttributeValueUnquoted && x != ' ' && x != '>',
    ensures
        transition(s, Some(x)).0.latest == with_attribute_char(s.latest, x, false),
        !transition(s, Some(x)).1,
{
}

// ---------------------------------------------------------------------------
// Progress from one pull to the next
/// A record as a pull that hands out a character or a tag leaves it.
pub open spec fn at_boundary(s: TokenizerView) -> bool {
    &&& wf(s)
    &&& s.state == State::Data && !s.reconsume || s.state == State::ScriptData || s.state
        == State::TemporaryBuffer && s.reconsume
}

/// Falls with every pull that does not reach the end of input.
pub open spec fn potential(s: TokenizerView) -> int {
    6 * (s.input.len() - s.pos) + (if s.state == State::TemporaryBuffer {
        s.buf.len() as int
    } else {
        0int
    }) + (if s.reconsume {
        1int
    } else {
        0int
    })
}

/// What holds between two reads of a pull that started at `s0`.
pub open spec fn within_pull(s: TokenizerView, s0: TokenizerView) -> bool {
    &&& wf(s)
    &&& at_boundary(s0)
    &&& s.input == s0.input
    &&& s0.pos < s0.input.len()
    &&& s.pos >= s0.pos
    &&& s.state == State::ScriptDataEndTagOpen ==> s.buf.len() == 0 && !s.reconsume && s.pos
        >= s0.pos + 1
    &&& s.state == State::ScriptDataEndTagName ==> if s.reconsume {
        s.buf.len() + 2 <= s.pos - s0.pos
    } else {
        s.buf.len() + 1 <= s.pos - s0.pos
    }
    &&& s.state == State::TemporaryBuffer && !s.reconsume ==> s.buf.len() <= s.pos - s0.pos + 2
    &&& s.state == State::TemporaryBuffer && s.reconsume ==> s == s0
    &&& s.state == State::ScriptDataLessThanSign ==> !s.reconsume
    &&& s.pos == s0.pos ==> (s == s0 || s.state == State::ScriptData && s.reconsume
        && s0.reconsume || s.state == State::ScriptDataLessThanSign && s0.reconsume)
}

proof fn lemma_run_progress(s: TokenizerView, s0: TokenizerView)
    requires
        within_pull(s, s0),
    ensures
        run(s).0.input == s0.input,
        run(s).0.pos >= s0.input.len() || at_boundary(run(s).0) && potential(run(s).0)
            < potential(s0),
    decreases measure(s),
{
    lemma_step_decreases(s);
    if !step(s).1 {
        assert(within_pull(step(s).0, s0));
        lemma_run_progress(step(s).0, s0);
    }
}

/// Every pull from a record that a pull left, before the end of input, either
/// reaches the end of input, after which pulls hand out nothing, or leaves
/// such a record again with a lower potential, which is never negative before
/// the end. So handing out tokens one pull after another always ends.
pub proof fn lemma_pull_progress(s: TokenizerView)
    requires
        at_boundary(s),
        s.pos < s.input.len(),
    ensures
        potential(s) >= 0,
        pull(s).0.pos >= s.input.len() ==> pull(pull(s).0) == (pull(s).0, None::<TokenView>),
        pull(s).0.pos < s.input.len() ==> at_boundary(pull(s).0) && 0 <= potential(pull(s).0)
            < potential(s),
{
    lemma_run_progress(s, s);
}

/// Outside tags, a character other than `<` passes through as it is: in
/// `Data` or `ScriptData`, with nothing latched, a pull hands it out as a
/// character token and moves on by one.
pub proof fn lemma_text_passes_through(s: TokenizerView)
    requires
        wf(s),
        s.state == State::Data || s.state == State::ScriptData,
        !s.reconsume,
        s.pos < s.input.len(),
        s.input[s.pos] != '<',
    ensures
        pull(s) == (TokenizerView { pos: s.pos + 1, ..s }, Some(TokenView::Char(s.input[s.pos]))),
{
    lemma_step_decreases(s);
}

/// None of `s[i..j]` is a space, `/` or `>`.
pub open spec fn plain_name(s: Seq<char>, i: int, j: int) -> bool {
    forall|k: int| i <= k < j ==> s[k] != ' ' && s[k] != '/' && s[k] != '>'
}

/// A start tag without attributes (`start`) or an end tag, named `t`.
pub open spec fn bare_tag(start: bool, t: Seq<char>) -> TokenView {
    if start {
        TokenView::StartTag { tag: t, self_closing: false, attributes: Seq::empty() }
    } else {
        TokenView::EndTag { tag: t }
    }
}

proof fn lemma_tag_name_run(s: TokenizerView, start: bool, t: Seq<char>, j: int)
    requires
        wf(s),
        s.state == State::TagName,
        !s.reconsume,
        s.latest == Some(bare_tag(start, t)),
        s.pos <= j < s.input.len(),
        plain_name(s.input, s.pos, j),
        s.input[j] == '>',
    ensures
        run(s) == (TokenizerView { state: State::Data, pos: j + 1, latest: None, ..s }, Some(
            bare_tag(start, t + fold_case(s.input.subrange(s.pos, j))),
        )),
    decreases j - s.pos,
{
    lemma_step_decreases(s);
    if s.pos < j {
        let x = s.input[s.pos];
        let s2 = step(s).0;
        lemma_tag_name_run(s2, start, t.push(lower(x)), j);
        assert(t.push(lower(x)) + fold_case(s.input.subrange(s.pos + 1, j)) =~= t + fold_case(
            s.input.subrange(s.pos, j),
        ));
    } else {
        assert(fold_case(s.input.subrange(s.pos, j)) =~= Seq::<char>::empty());
        assert(t + Seq::<char>::empty() =~= t);
    }
}

/// A tag with no attributes, `<name>` or `</name>`, comes out whole: one pull
/// hands out the start or end tag whose name is the text up to `>` with its
/// case folded, and moves past the `>`.
pub proof fn lemma_bare_tag_round_trip(s: TokenizerView, start: bool, j: int)
    requires
        wf(s),
        s.state == State::Data,
        !s.reconsume,
        s.input[s.pos] == '<',
        start ==> s.pos + 2 <= j < s.input.len() && is_alpha(s.input[s.pos + 1]) && plain_name(
            s.input,
            s.pos + 1,
            j,
        ),
        !start ==> s.pos + 3 <= j < s.input.len() && s.input[s.pos + 1] == '/' && is_alpha(
            s.input[s.pos + 2],
        ) && plain_name(s.input, s.pos + 2, j),
        s.input[j] == '>',
    ensures
        pull(s) == (TokenizerView { state: State::Data, pos: j + 1, latest: None, ..s }, Some(
            bare_tag(start, fold_case(s.input.subrange(if start { s.pos + 1 } else { s.pos + 2 }, j))),
        )),
{
    let k = if start { s.pos + 1 } else { s.pos + 2 };
    let s1 = step(s).0;
    let s2 = step(s1).0;
    let s3 = step(s2).0;
    let s4 = step(s3).0;
    lemma_step_decreases(s);
    lemma_step_decreases(s1);
    lemma_step_decreases(s2);
    assert(run(s) == run(s1));
    assert(run(s1) == run(s2));
    assert(run(s2) == run(s3));
    let x = s.input[k];
    assert(seq![lower(x)] + fold_case(s.input.subrange(k + 1, j)) =~= fold_case(
        s.input.subrange(k, j),
    ));
    assert(Seq::<char>::empty().push(lower(x)) =~= seq![lower(x)]);
    if start {
        lemma_tag_name_run(s3, start, seq![lower(x)], j);
    } else {
        lemma_step_decreases(s3);
        assert(run(s3) == run(s4));
        lemma_tag_name_run(s4, start, seq![lower(x)], j);
    }
}

// ---------------------------------------------------------------------------
// The executable machine
impl HtmlTokenizer {
    /// A pull is defined from this record, and the token under construction
    /// (if any) has folded, non-empty names.
    pub open spec fn well_formed(&self) -> bool {
        outer_ok(self@)
    }

    pub fn new(html: String) -> (r: Self)
        requires
            html@.len() < usize::MAX,
        ensures
            r@ == (TokenizerView {
                state: State::Data,
                pos: 0,
                reconsume: false,
                latest: None,
                input: html@,
                buf: Seq::empty(),
            }),
            r.well_formed(),
    {
        HtmlTokenizer {
            state: State::Data,
            pos: 0,
            reconsume: false,
            latest_token: None,
            input: chars_of(&html),
            buf: Vec::new(),
        }
    }

    /// Puts the machine into state `state`, as the tree builder does after
    /// a `<script>` start tag.
    pub fn set_state(&mut self, state: State)
        ensures
            final(self)@ == (TokenizerView { state, ..old(self)@ }),
            final(self).well_formed() == old(self).well_formed(),
    {
        self.state = state;
    }

    pub fn state(&self) -> (r: State)
        ensures
            r == self@.state,
    {
        self.state
    }

    fn consume_next_input(&mut self) -> (r: Option<char>)
        requires
            wf(old(self)@),
            !old(self)@.reconsume,
        ensures
            (final(self)@, r) == read(old(self)@),
    {
        if self.pos < self.input.len() {
            let c = self.input[self.pos];
            self.pos = self.pos + 1;
            Some(c)
        } else {
            self.pos = self.input.len() + 1;
            None
        }
    }

    fn reconsume_input(&mut self) -> (r: Option<char>)
        requires
            wf(old(self)@),
            old(self)@.reconsume,
        ensures
            (final(self)@, r) == read(old(self)@),
    {
        self.reconsume = false;
        if self.pos - 1 < self.input.len() {
            Some(self.input[self.pos - 1])
        } else {
            None
        }
    }

    fn create_tag(&mut self, start_tag_token: bool)
        ensures
            final(self)@ == (TokenizerView { latest: Some(new_tag(start_tag_token)), ..old(self)@ }),
    {
        if start_tag_token {
            let attributes: Vec<Attribute> = Vec::new();
            proof {
                assert(attributes@.map_values(|a: Attribute| a@) =~= Seq::empty());
            }
            self.latest_token = Some(
                HtmlToken::StartTag { tag: String::new(), self_closing: false, attributes },
            );
        } else {
            self.latest_token = Some(HtmlToken::EndTag { tag: String::new() });
        }
    }

    fn append_tag_name(&mut self, c: char)
        ensures
            final(self)@ == (TokenizerView {
                latest: with_tag_char(old(self)@.latest, c),
                ..old(self)@
            }),
    {
        let t = self.latest_token.take();
        self.latest_token = match t {
            Some(HtmlToken::StartTag { mut tag, self_closing, attributes }) => {
                push_char(&mut tag, c);
                Some(HtmlToken::StartTag { tag, self_closing, attributes })
            },
            Some(HtmlToken::EndTag { mut tag }) => {
                push_char(&mut tag, c);
                Some(HtmlToken::EndTag { tag })
            },
            other => other,
        };
    }

    fn take_latest_token(&mut self) -> (r: Option<HtmlToken>)
        ensures
            final(self)@ == (TokenizerView { latest: None, ..old(self)@ }),
            token_opt_view(r) == old(self)@.latest,
    {
        self.latest_token.take()
    }

    fn start_new_attribute(&mut self)
        ensures
            final(self)@ == (TokenizerView {
                latest: with_new_attribute(old(self)@.latest),
                ..old(self)@
            }),
    {
        let t = self.latest_token.take();
        self.latest_token = match t {
            Some(HtmlToken::StartTag { tag, self_closing, mut attributes }) => {
                let ghost before = attributes@;
                attributes.push(Attribute::new());
                proof {
                    assert(attributes@.map_values(|a: Attribute| a@) =~= before.map_values(
                        |a: Attribute| a@,
                    ).push((Seq::empty(), Seq::empty())));
                }
                Some(HtmlToken::StartTag { tag, self_closing, attributes })
            },
            other => other,
        };
    }

    fn append_attribute(&mut self, c: char, is_name: bool)
        ensures
            final(self)@ == (TokenizerView {
                latest: with_attribute_char(old(self)@.latest, c, is_name),
                ..old(self)@
            }),
    {
        let t = self.latest_token.take();
        self.latest_token = match t {
            Some(HtmlToken::StartTag { tag, self_closing, mut attributes }) => {
                if attributes.len() > 0 {
                    let ghost before = attributes@;
                    let mut last = attributes.pop().unwrap();
                    last.add_char(c, is_name);
                    attributes.push(last);
                    proof {
                        let bv = before.map_values(|a: Attribute| a@);
                        assert(attributes@.map_values(|a: Attribute| a@) =~= bv.update(
                            bv.len() - 1,
                            attr_with_char(bv.last(), c, is_name),
                        ));
                    }
                }
                Some(HtmlToken::StartTag { tag, self_closing, attributes })
            },
            other => other,
        };
    }

    fn set_self_closing_flag(&mut self)
        ensures
            final(self)@ == (TokenizerView {
                latest: with_self_closing(old(self)@.latest),
                ..old(self)@
            }),
    {
        let t = self.latest_token.take();
        self.latest_token = match t {
            Some(HtmlToken::StartTag { tag, self_closing, attributes }) => Some(
                HtmlToken::StartTag { tag, self_closing: true, attributes },
            ),
            other => other,
        };
    }
}

impl HtmlTokenizer {
    /// Hands out `t`: the pull stops.
    fn emit(t: HtmlToken) -> (r: (bool, Option<HtmlToken>))
        ensures
            r.0,
            token_opt_view(r.1) == Some(t@),
    {
        (true, Some(t))
    }

    /// Hands out the token under construction and goes back to `Data`.
    fn emit_latest_token(&mut self) -> (r: (bool, Option<HtmlToken>))
        ensures
            (final(self)@, r.0, token_opt_view(r.1)) == emit_latest(old(self)@),
    {
        self.state = State::Data;
        (true, self.take_latest_token())
    }

    /// What the current state does with `c`, the character just read.
    fn transition(&mut self, c: Option<char>) -> (r: (bool, Option<HtmlToken>))
        ensures
            (final(self)@, r.0, token_opt_view(r.1)) == transition(old(self)@, c),
    {
        let go_on: (bool, Option<HtmlToken>) = (false, None);
        match self.state {
            State::Data => {
                match c {
                    Some('<') => {
                        self.state = State::TagOpen;
                        go_on
                    },
                    Some(x) => Self::emit(HtmlToken::Char(x)),
                    None => Self::emit(HtmlToken::Eof),
                }
            },
            State::TagOpen => {
                if c == Some('/') {
                    self.state = State::EndTagOpen;
                    go_on
                } else if is_ascii_alpha(c) {
                    self.create_tag(true);
                    self.reconsume = true;
                    self.state = State::TagName;
                    go_on
                } else if c.is_none() {
                    Self::emit(HtmlToken::Eof)
                } else {
                    self.reconsume = true;
                    self.state = State::Data;
                    go_on
                }
            },
            State::EndTagOpen => {
                if c.is_none() {
                    Self::emit(HtmlToken::Eof)
                } else if is_ascii_alpha(c) {
                    self.create_tag(false);
                    self.reconsume = true;
                    self.state = State::TagName;
                    go_on
                } else {
                    go_on
                }
            },
            State::TagName => {
                match c {
                    Some(' ') => {
                        self.state = State::BeforeAttributeName;
                        go_on
                    },
                    Some('/') => {
                        self.state = State::SelfClosingStartTag;
                        go_on
                    },
                    Some('>') => self.emit_latest_token(),
                    Some(x) => {
                        self.append_tag_name(to_lower(x));
                        go_on
                    },
                    None => Self::emit(HtmlToken::Eof),
                }
            },
            State::BeforeAttributeName => {
                if c == Some('/') || c == Some('>') || c.is_none() {
                    self.reconsume = true;
                    self.state = State::AfterAttributeName;
                } else {
                    self.start_new_attribute();
                    self.reconsume = true;
                    self.state = State::AttributeName;
                }
                go_on
            },
            State::AttributeName => {
                match c {
                    Some(' ') | Some('/') | Some('>') | None => {
                        self.reconsume = true;
                        self.state = State::AfterAttributeName;
                    },
                    Some('=') => {
                        self.state = State::BeforeAttributeValue;
                    },
                    Some(x) => {
                        self.append_attribute(to_lower(x), true);
                    },
                }
                go_on
            },
            State::AfterAttributeName => {
                match c {
                    Some(' ') => go_on,
                    Some('/') => {
                        self.state = State::SelfClosingStartTag;
                        go_on
                    },
                    Some('=') => {
                        self.state = State::BeforeAttributeValue;
                        go_on
                    },
                    Some('>') => self.emit_latest_token(),
                    None => Self::emit(HtmlToken::Eof),
                    Some(_) => {
                        self.start_new_attribute();
                        self.reconsume = true;
                        self.state = State::AttributeName;
                        go_on
                    },
                }
            },
            State::BeforeAttributeValue => {
                match c {
                    Some(' ') => {},
                    Some('"') => {
                        self.state = State::AttributeValueDoubleQuoted;
                    },
                    Some('\'') => {
                        self.state = State::AttributeValueSingleQuoted;
                    },
                    _ => {
                        self.reconsume = true;
                        self.state = State::AttributeValueUnquoted;
                    },
                }
                go_on
            },
            State::AttributeValueDoubleQuoted => {
                match c {
                    Some('"') => {
                        self.state = State::AfterAttributeValueQuoted;
                        go_on
                    },
                    Some(x) => {
                        self.append_attribute(x, false);
                        go_on
                    },
                    None => Self::emit(HtmlToken::Eof),
                }
            },
            State::AttributeValueSingleQuoted => {
                match c {
                    Some('\'') => {
                        self.state = State::AfterAttributeValueQuoted;
                        go_on
                    },
                    Some(x) => {
                        self.append_attribute(x, false);
                        go_on
                    },
                    None => Self::emit(HtmlToken::Eof),
                }
            },
            State::AttributeValueUnquoted => {
                match c {
                    Some(' ') => {
                        self.state = State::BeforeAttributeName;
                        go_on
                    },
                    Some('>') => self.emit_latest_token(),
                    Some(x) => {
                        self.append_attribute(x, false);
                        go_on
                    },
                    None => Self::emit(HtmlToken::Eof),
                }
            },
            State::AfterAttributeValueQuoted => {
                match c {
                    Some(' ') => {
                        self.state = State::BeforeAttributeName;
                        go_on
                    },
                    Some('/') => {
                        self.state = State::SelfClosingStartTag;
                        go_on
                    },
                    Some('>') => self.emit_latest_token(),
                    None => Self::emit(HtmlToken::Eof),
                    Some(_) => {
                        self.reconsume = true;
                        self.state = State::BeforeAttributeValue;
                        go_on
                    },
                }
            },
            State::SelfClosingStartTag => {
                match c {
                    Some('>') => {
                        self.set_self_closing_flag();
                        self.emit_latest_token()
                    },
                    None => Self::emit(HtmlToken::Eof),
                    Some(_) => go_on,
                }
            },
            State::ScriptData => {
                match c {
                    Some('<') => {
                        self.state = State::ScriptDataLessThanSign;
                        go_on
                    },
                    Some(x) => Self::emit(HtmlToken::Char(x)),
                    None => Self::emit(HtmlToken::Eof),
                }
            },
            State::ScriptDataLessThanSign => {
                if c == Some('/') {
                    self.buf = Vec::new();
                    self.state = State::ScriptDataEndTagOpen;
                    go_on
                } else {
                    self.reconsume = true;
                    self.state = State::ScriptData;
                    Self::emit(HtmlToken::Char('<'))
                }
            },
            State::ScriptDataEndTagOpen => {
                if is_ascii_alpha(c) {
                    self.create_tag(false);
                    self.reconsume = true;
                    self.state = State::ScriptDataEndTagName;
                    go_on
                } else {
                    // Only the `<` is handed back; the `/` is dropped.
                    self.reconsume = true;
                    self.state = State::ScriptData;
                    Self::emit(HtmlToken::Char('<'))
                }
            },
            State::ScriptDataEndTagName => {
                if c == Some('>') {
                    self.emit_latest_token()
                } else if is_ascii_alpha(c) {
                    let x = c.unwrap();
                    self.buf.push(x);
                    self.append_tag_name(to_lower(x));
                    go_on
                } else {
                    let mut replay: Vec<char> = Vec::new();
                    replay.push('<');
                    replay.push('/');
                    let ghost pending = self.buf@;
                    replay.append(&mut self.buf);
                    if let Some(x) = c {
                        replay.push(x);
                    }
                    proof {
                        let tail = match c {
                            Some(x) => seq![x],
                            None => Seq::<char>::empty(),
                        };
                        assert(replay@ =~= seq!['<', '/'] + pending + tail);
                    }
                    self.buf = replay;
                    self.state = State::TemporaryBuffer;
                    go_on
                }
            },
            State::TemporaryBuffer => {
                self.reconsume = true;
                if self.buf.len() == 0 {
                    self.state = State::ScriptData;
                    go_on
                } else {
                    let first = self.buf.remove(0);
                    Self::emit(HtmlToken::Char(first))
                }
            },
        }
    }

    /// The next token, or `None` once the input has been read to its end.
    pub fn next(&mut self) -> (r: Option<HtmlToken>)
        requires
            old(self).well_formed(),
        ensures
            final(self).well_formed(),
            (final(self)@, token_opt_view(r)) == pull(old(self)@),
            r is Some ==> token_ok(r->Some_0@),
    {
        if self.pos >= self.input.len() {
            return None;
        }
        let ghost start = self@;
        proof {
            lemma_run_keeps_names(start);
        }
        loop
            invariant
                wf(self@),
                run(self@) == run(start),
                start.pos < start.input.len(),
                pull(start) == run(start),
                start == old(self)@,
                outer_ok(run(start).0),
                run(start).1 is Some ==> token_ok(run(start).1->Some_0),
            decreases measure(self@),
        {
            let ghost before = self@;
            proof {
                lemma_step_decreases(before);
            }
            let c = if self.reconsume {
                self.reconsume_input()
            } else {
                self.consume_next_input()
            };
            let (done, out) = self.transition(c);
            assert(step(before) == (self@, done, token_opt_view(out)));
            if done {
                assert(run(before) == (self@, token_opt_view(out)));
                return out;
            }
        }
    }
}

} // verus!
