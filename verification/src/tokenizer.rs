//! Splitting PTY output into text, control characters and sequences.
//!
//! The `vte` crate does the splitting. [`Tokens`] collects what it reports as
//! plain values, and [`advance`] hands one byte to it.

use vstd::prelude::*;

verus! {

/// What the parser of the `vte` crate is made of. Nothing here looks inside.
#[verifier::external_type_specification]
#[verifier::external_body]
#[verifier::reject_recursive_types(OSC_RAW_BUF_SIZE)]
pub struct ExParser<const OSC_RAW_BUF_SIZE: usize>(vte::Parser<OSC_RAW_BUF_SIZE>);

/// The parameters of a control sequence, as the `vte` crate hands them out.
#[verifier::external_type_specification]
#[verifier::external_body]
pub struct ExParams(vte::Params);

/// One thing that the byte stream asks of the terminal.
#[derive(Debug)]
pub enum Token {
    /// Draw a character.
    Print(char),
    /// Execute a control character.
    Execute(u8),
    /// An operating system command: its parameters.
    Osc(Vec<Vec<u8>>),
    /// A control sequence.
    Csi {
        /// The parameters, each with its subparameters.
        params: Vec<Vec<u16>>,
        /// The private marker and the intermediate bytes.
        intermediates: Vec<u8>,
        /// Whether the sequence was too long to be kept whole.
        ignore: bool,
        /// The final character.
        action: char,
    },
    /// An escape sequence.
    Esc {
        /// The intermediate bytes.
        intermediates: Vec<u8>,
        /// Whether the sequence was too long to be kept whole.
        ignore: bool,
        /// The final byte.
        byte: u8,
    },
}

/// A [`Token`] with its lists as sequences.
pub enum TokenView {
    /// Draw a character.
    Print(char),
    /// Execute a control character.
    Execute(u8),
    /// An operating system command.
    Osc(Seq<Seq<u8>>),
    /// A control sequence.
    Csi {
        /// The parameters, each with its subparameters.
        params: Seq<Seq<u16>>,
        /// The private marker and the intermediate bytes.
        intermediates: Seq<u8>,
        /// Whether the sequence was too long to be kept whole.
        ignore: bool,
        /// The final character.
        action: char,
    },
    /// An escape sequence.
    Esc {
        /// The intermediate bytes.
        intermediates: Seq<u8>,
        /// Whether the sequence was too long to be kept whole.
        ignore: bool,
        /// The final byte.
        byte: u8,
    },
}

/// A list of parameters with each parameter as a sequence.
pub open spec fn params_view(params: Seq<Vec<u16>>) -> Seq<Seq<u16>> {
    Seq::new(params.len(), |i: int| params[i]@)
}

/// A list of byte strings with each string as a sequence.
pub open spec fn strings_view(strings: Seq<Vec<u8>>) -> Seq<Seq<u8>> {
    Seq::new(strings.len(), |i: int| strings[i]@)
}

impl View for Token {
    type V = TokenView;

    open spec fn view(&self) -> TokenView {
        match *self {
            Token::Print(ch) => TokenView::Print(ch),
            Token::Execute(byte) => TokenView::Execute(byte),
            Token::Osc(params) => TokenView::Osc(strings_view(params@)),
            Token::Csi { params, intermediates, ignore, action } => TokenView::Csi {
                params: params_view(params@),
                intermediates: intermediates@,
                ignore,
                action,
            },
            Token::Esc { intermediates, ignore, byte } => TokenView::Esc {
                intermediates: intermediates@,
                ignore,
                byte,
            },
        }
    }
}

/// A list of tokens, each by its view.
pub open spec fn tokens_view(tokens: Seq<Token>) -> Seq<TokenView> {
    Seq::new(tokens.len(), |i: int| tokens[i]@)
}

/// There is no second control sequence among the tokens.
pub open spec fn at_most_one_sequence(tokens: Seq<TokenView>) -> bool {
    forall|i: int, j: int|
        0 <= i < j < tokens.len() ==> !(#[trigger] tokens[i] is Csi && #[trigger] tokens[j] is Csi)
}

/// Collects what the parser reports, in order.
pub struct Tokens {
    pub list: Vec<Token>,
}

/// The parameters that a `vte::Params` holds, each with its subparameters.
pub uninterp spec fn params_held(params: vte::Params) -> Seq<Seq<u16>>;

/// Calls `vte::Params::iter` and copies each slice of subparameters that it
/// yields. The copy is the list that the parameters hold.
#[verifier::external_body]
fn copy_params(params: &vte::Params) -> (list: Vec<Vec<u16>>)
    ensures
        params_view(list@) == params_held(*params),
{
    params.iter().map(|param| param.to_vec()).collect()
}

/// Copies a list of byte strings.
fn copy_strings(strings: &[&[u8]]) -> (list: Vec<Vec<u8>>)
    ensures
        list@.len() == strings@.len(),
        forall|i: int| 0 <= i < list@.len() ==> (#[trigger] list@[i])@ == strings@[i]@,
{
    let mut list: Vec<Vec<u8>> = Vec::with_capacity(strings.len());
    let mut i: usize = 0;
    while i < strings.len()
        invariant
            i <= strings@.len(),
            list@.len() == i,
            forall|k: int| 0 <= k < i ==> (#[trigger] list@[k])@ == strings@[k]@,
        decreases strings@.len() - i,
    {
        list.push(vstd::slice::slice_to_vec(strings[i]));
        i += 1;
    }
    list
}

/// Device control strings are not collected: their payload never becomes
/// visible text.
impl vte::Perform for Tokens {
    fn print(&mut self, c: char)
        ensures
            final(self).list@ == old(self).list@.push(Token::Print(c)),
    {
        self.list.push(Token::Print(c));
    }

    fn execute(&mut self, byte: u8)
        ensures
            final(self).list@ == old(self).list@.push(Token::Execute(byte)),
    {
        self.list.push(Token::Execute(byte));
    }

    fn osc_dispatch(&mut self, params: &[&[u8]], bell_terminated: bool)
        ensures
            final(self).list@.len() == old(self).list@.len() + 1,
            final(self).list@.drop_last() == old(self).list@,
            final(self).list@.last()@ == TokenView::Osc(
                Seq::new(params@.len(), |i: int| params@[i]@),
            ),
    {
        let _ = bell_terminated;
        let list: Vec<Vec<u8>> = copy_strings(params);
        proof {
            assert(strings_view(list@) =~= Seq::new(params@.len(), |i: int| params@[i]@));
        }
        self.list.push(Token::Osc(list));
        proof {
            assert(self.list@.drop_last() =~= old(self).list@);
        }
    }

    fn csi_dispatch(
        &mut self,
        params: &vte::Params,
        intermediates: &[u8],
        ignore: bool,
        action: char,
    )
        ensures
            final(self).list@.len() == old(self).list@.len() + 1,
            final(self).list@.drop_last() == old(self).list@,
            final(self).list@.last()@ == (TokenView::Csi {
                params: params_held(*params),
                intermediates: intermediates@,
                ignore,
                action,
            }),
    {
        self.list.push(
            Token::Csi {
                params: copy_params(params),
                intermediates: vstd::slice::slice_to_vec(intermediates),
                ignore,
                action,
            },
        );
        proof {
            assert(self.list@.drop_last() =~= old(self).list@);
        }
    }

    fn esc_dispatch(&mut self, intermediates: &[u8], ignore: bool, byte: u8)
        ensures
            final(self).list@.len() == old(self).list@.len() + 1,
            final(self).list@.drop_last() == old(self).list@,
            final(self).list@.last()@ == (TokenView::Esc {
                intermediates: intermediates@,
                ignore,
                byte,
            }),
    {
        self.list.push(
            Token::Esc {
                intermediates: vstd::slice::slice_to_vec(intermediates),
                ignore,
                byte,
            },
        );
        proof {
            assert(self.list@.drop_last() =~= old(self).list@);
        }
    }
}

/// A parser of the `vte` crate that was made by `vte::Parser::new` and then
/// given the bytes of `fed`, one to a call of `vte::Parser::advance`.
pub uninterp spec fn parser_after(fed: Seq<u8>) -> vte::Parser;

/// What such a parser reports when it is given one byte more: the characters
/// to print, the control characters to execute, and the operating system
/// commands, control sequences and escape sequences to dispatch, in order.
pub uninterp spec fn tokens_after(fed: Seq<u8>, byte: u8) -> Seq<TokenView>;

/// Calls `vte::Parser::new`. The parser it returns has read nothing.
#[verifier::external_body]
pub(crate) fn new_parser() -> (parser: vte::Parser)
    ensures
        parser == parser_after(Seq::empty()),
{
    vte::Parser::new()
}

/// Calls `vte::Parser::advance` with one byte. The parser is a state machine
/// without any input but its bytes: what it reports, and the state it is left
/// in, follow from the bytes it was given so far and the new one. One byte
/// ends one control sequence at most.
#[verifier::external_body]
pub(crate) fn advance(parser: &mut vte::Parser, byte: u8) -> (tokens: Vec<Token>)
    ensures
        at_most_one_sequence(tokens_view(tokens@)),
        forall|fed: Seq<u8>|
            *old(parser) == #[trigger] parser_after(fed) ==> {
                &&& *final(parser) == parser_after(fed.push(byte))
                &&& tokens_view(tokens@) == tokens_after(fed, byte)
            },
{
    let mut tokens = Tokens { list: Vec::new() };
    parser.advance(&mut tokens, &[byte]);
    tokens.list
}

/// The number of columns that `unicode_width` gives a character.
pub uninterp spec fn unicode_columns(ch: char) -> Option<usize>;

/// Calls `unicode_width::UnicodeWidthChar::width`. It gives no width to
/// control characters (below U+0020, and from U+007F to U+009F), one column
/// to the printable ASCII characters, and some width to every other
/// character.
#[verifier::external_body]
fn unicode_width(ch: char) -> (columns: Option<usize>)
    ensures
        columns == unicode_columns(ch),
        columns is None <==> (ch as u32) < 0x20 || 0x7f <= (ch as u32) < 0xa0,
        0x20 <= (ch as u32) < 0x7f ==> columns == Some(1usize),
{
    unicode_width::UnicodeWidthChar::width(ch)
}

/// The width that the terminal goes by: one column stands for any width above
/// two.
pub open spec fn shown_columns(columns: Option<usize>) -> Option<usize> {
    match columns {
        Some(n) => if n <= 2 {
            Some(n)
        } else {
            Some(1usize)
        },
        None => None,
    }
}

/// Returns the width that the terminal goes by for a character that
/// `unicode_width` gives `columns`.
pub fn display_width(columns: Option<usize>) -> (width: Option<usize>)
    ensures
        width == shown_columns(columns),
{
    match columns {
        None => None,
        Some(n) => if n <= 2 {
            Some(n)
        } else {
            Some(1)
        },
    }
}

/// Returns the display width of a character: `None` for a control character,
/// else 0, 1 or 2 columns.
pub fn char_display_width(ch: char) -> (width: Option<usize>)
    ensures
        width == shown_columns(unicode_columns(ch)),
        width is None <==> (ch as u32) < 0x20 || 0x7f <= (ch as u32) < 0xa0,
        0x20 <= (ch as u32) < 0x7f ==> width == Some(1usize),
{
    display_width(unicode_width(ch))
}

/// The text that `String::from_utf8_lossy` makes of bytes.
pub uninterp spec fn lossy_text(bytes: Seq<u8>) -> Seq<char>;

/// Calls `String::from_utf8_lossy` and makes the result an owned string. Valid
/// UTF-8 is decoded; what stands for invalid bytes is left to the function.
#[verifier::external_body]
pub(crate) fn text_from_utf8(bytes: &[u8]) -> (text: String)
    ensures
        text@ == lossy_text(bytes@),
        vstd::utf8::valid_utf8(bytes@) ==> text@ == vstd::utf8::decode_utf8(bytes@),
{
    String::from_utf8_lossy(bytes).into_owned()
}

} // verus!
