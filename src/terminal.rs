//! Terminal capabilities: the width of the terminal, the terminal application,
//! the formatting it supports, and OSC control sequences.
//!
//! The environment and the device are read by the caller; the functions here
//! decide from what was read.
use vstd::prelude::*;
use vstd::string::{StrSliceExecFns, StringExecFns};
use crate::text::{
    contains, decimal_text, lemma_decimal_text_reads_back, parse_unsigned, parse_unsigned_range,
    str_contains,
};

verus! {

/// Width assumed when neither the device nor `$COLUMNS` gives one.
pub const DEFAULT_COLUMNS: u16 = 80;

/// The width that a value of `$COLUMNS` gives: a positive decimal numeral
/// that fits in `u16`.
pub open spec fn env_columns(value: Option<Seq<char>>) -> Option<u16> {
    match value {
        Some(v) => match parse_unsigned(v, u16::MAX as nat) {
            Some(n) => if n > 0 {
                Some(n as u16)
            } else {
                None
            },
            None => None,
        },
        None => None,
    }
}

/// The width of the terminal: the device's answer, else `$COLUMNS`, else 80.
pub open spec fn resolved_columns(tty: Option<u16>, env: Option<Seq<char>>) -> u16 {
    match tty {
        Some(c) => c,
        None => match env_columns(env) {
            Some(c) => c,
            None => DEFAULT_COLUMNS,
        },
    }
}

/// Get the number of columns from the value of `$COLUMNS`, if it is set.
///
/// Return `None` if the variable is not set or does not hold a valid positive
/// number.
pub fn columns_from_env(value: Option<&str>) -> (r: Option<u16>)
    ensures
        r == env_columns(value.deep_view()),
{
    match value {
        Some(v) => {
            let n = v.unicode_len();
            assert(v@.subrange(0, n as int) =~= v@);
            match parse_unsigned_range(v, 0, n, 65535) {
                Some(c) => {
                    if c > 0 {
                        Some(c as u16)
                    } else {
                        None
                    }
                },
                None => None,
            }
        },
        None => None,
    }
}

/// Make a best effort to get the number of columns for the terminal.
///
/// `tty_columns` is the width that the TTY device reported, if it could be
/// queried; `columns_var` is the value of `$COLUMNS`, if set.  The device
/// wins, then the variable, and eventually a default of 80 for safety.
pub fn columns(tty_columns: Option<u16>, columns_var: Option<&str>) -> (r: u16)
    ensures
        r == resolved_columns(tty_columns, columns_var.deep_view()),
{
    match tty_columns {
        Some(c) => c,
        None => match columns_from_env(columns_var) {
            Some(c) => c,
            None => DEFAULT_COLUMNS,
        },
    }
}

/// Where `$COLUMNS` is unset or holds no valid width, the width is the
/// device's, and 80 when the device cannot be queried.
pub proof fn lemma_columns_without_variable(tty: Option<u16>, env: Option<Seq<char>>)
    requires
        env_columns(env) is None,
    ensures
        resolved_columns(tty, env) == match tty {
            Some(c) => c,
            None => 80u16,
        },
{
}

/// When the device cannot be queried, a positive width `v` in `$COLUMNS` is
/// the width, however the numeral is spelled.
pub proof fn lemma_columns_from_variable(text: Seq<char>, v: u16)
    requires
        v > 0,
        parse_unsigned(text, u16::MAX as nat) == Some(v as nat),
    ensures
        resolved_columns(None, Some(text)) == v,
{
}

/// When the device cannot be queried, `$COLUMNS` holding the decimal
/// spelling of a positive `v` gives the width `v`.
pub proof fn lemma_columns_from_decimal(v: u16)
    requires
        v > 0,
    ensures
        resolved_columns(None, Some(decimal_text(v as nat))) == v,
{
    lemma_decimal_text_reads_back(v as nat, u16::MAX as nat);
}

/// The terminal we use.
#[derive(Debug, Clone, Copy, PartialEq, Eq, Structural)]
pub enum Terminal {
    /// iTerm2, a macOS terminal emulator with many formatting features,
    /// including images and inline links.
    ITerm2,
    /// A terminal based on VTE 0.50 or newer; these versions support inline
    /// links.
    VTE50,
    /// An unknown terminal application.
    Unknown,
}

/// The version `(minor, patch)` that a value of `$VTE_VERSION` gives: its
/// first two characters and the two after them, each read as a `u8`.
pub open spec fn vte_version(value: Option<Seq<char>>) -> Option<(u8, u8)> {
    match value {
        Some(v) => if v.len() >= 4 {
            let minor = parse_unsigned(v.subrange(0, 2), u8::MAX as nat);
            let patch = parse_unsigned(v.subrange(2, 4), u8::MAX as nat);
            match (minor, patch) {
                (Some(minor), Some(patch)) => Some((minor as u8, patch as u8)),
                _ => None,
            }
        } else {
            None
        },
        None => None,
    }
}

/// Get the version of VTE underlying this terminal from the value of
/// `$VTE_VERSION`, if it is set.
///
/// Return `(minor, patch)` if this terminal uses VTE, otherwise return `None`.
pub fn get_vte_version(value: Option<&str>) -> (r: Option<(u8, u8)>)
    ensures
        r == vte_version(value.deep_view()),
{
    match value {
        Some(v) => {
            if v.unicode_len() < 4 {
                return None;
            }
            let minor = parse_unsigned_range(v, 0, 2, 255);
            let patch = parse_unsigned_range(v, 2, 4, 255);
            match (minor, patch) {
                (Some(minor), Some(patch)) => Some((minor as u8, patch as u8)),
                _ => None,
            }
        },
        None => None,
    }
}

/// `$TERM_PROGRAM` names iTerm.
pub open spec fn names_iterm(term_program: Option<Seq<char>>) -> bool {
    match term_program {
        Some(p) => contains(p, "iTerm.app"@),
        None => false,
    }
}

/// A VTE version at or above `(50, 0)` in lexicographic order.
pub open spec fn is_modern_vte(version: Option<(u8, u8)>) -> bool {
    match version {
        Some((minor, patch)) => minor > 50 || (minor == 50 && patch >= 0),
        None => false,
    }
}

/// The terminal that the values of `$TERM_PROGRAM` and `$VTE_VERSION` point to.
pub open spec fn detected(term_program: Option<Seq<char>>, vte: Option<Seq<char>>) -> Terminal {
    if names_iterm(term_program) {
        Terminal::ITerm2
    } else if is_modern_vte(vte_version(vte)) {
        Terminal::VTE50
    } else {
        Terminal::Unknown
    }
}

impl Terminal {
    /// Detect the underlying terminal application from the values of
    /// `$TERM_PROGRAM` and `$VTE_VERSION`.
    pub fn detect(term_program: Option<&str>, vte_version: Option<&str>) -> (r: Terminal)
        ensures
            r == detected(term_program.deep_view(), vte_version.deep_view()),
    {
        let iterm = match term_program {
            Some(p) => str_contains(p, "iTerm.app"),
            None => false,
        };
        if iterm {
            Terminal::ITerm2
        } else {
            match get_vte_version(vte_version) {
                Some((minor, _)) => {
                    if minor >= 50 {
                        Terminal::VTE50
                    } else {
                        Terminal::Unknown
                    }
                },
                None => Terminal::Unknown,
            }
        }
    }
}

/// A `$TERM_PROGRAM` that names iTerm means iTerm2, whatever `$VTE_VERSION`
/// holds.
pub proof fn lemma_iterm_takes_priority(term_program: Seq<char>, vte: Option<Seq<char>>)
    requires
        contains(term_program, "iTerm.app"@),
    ensures
        detected(Some(term_program), vte) == Terminal::ITerm2,
{
}

/// The flags of a [`Format`].
pub struct FormatView {
    pub basic_colours: bool,
    pub inline_links: bool,
    pub inline_images: bool,
    pub iterm_marks: bool,
}

impl FormatView {
    /// Links, images and marks each come only with colours.
    pub open spec fn wf(self) -> bool {
        (self.inline_links || self.inline_images || self.iterm_marks) ==> self.basic_colours
    }
}

/// The format with the given flags.
pub open spec fn flags(
    basic_colours: bool,
    inline_links: bool,
    inline_images: bool,
    iterm_marks: bool,
) -> FormatView {
    FormatView { basic_colours, inline_links, inline_images, iterm_marks }
}

/// The format for the given TTY-ness and terminal environment.
pub open spec fn detected_format(
    force_colours: bool,
    is_tty: bool,
    term_program: Option<Seq<char>>,
    vte: Option<Seq<char>>,
) -> FormatView {
    if !is_tty {
        flags(force_colours, false, false, false)
    } else {
        match detected(term_program, vte) {
            Terminal::ITerm2 => flags(true, true, true, true),
            Terminal::VTE50 => flags(true, true, false, false),
            Terminal::Unknown => flags(true, false, false, false),
        }
    }
}

/// The formatting features that the terminal supports.
#[derive(Debug, Clone, Copy, PartialEq, Eq, Structural)]
pub struct Format {
    /// Whether to enable basic colours.
    basic_colours: bool,
    /// Whether to enable inline links.
    inline_links: bool,
    /// Whether to render images inline.
    inline_images: bool,
    /// Whether to set iterm marks for headings.
    iterm_marks: bool,
}

impl View for Format {
    type V = FormatView;

    closed spec fn view(&self) -> FormatView {
        flags(self.basic_colours, self.inline_links, self.inline_images, self.iterm_marks)
    }
}

impl Format {
    /// Create an empty format.
    ///
    /// This format enables no special formatting.
    pub fn empty() -> (r: Format)
        ensures
            r@ == flags(false, false, false, false),
            r@.wf(),
    {
        Format { basic_colours: false, inline_links: false, inline_images: false, iterm_marks: false }
    }

    /// Decide the format to use.
    ///
    /// `is_tty` tells whether the output goes to a TTY; `term_program` and
    /// `vte_version` are the values of `$TERM_PROGRAM` and `$VTE_VERSION`.
    /// If `force_colours` is true enforce colours, otherwise use colours if we
    /// run on a TTY.  On a TTY, enable the additional formatting of the
    /// terminal that we detect.
    pub fn auto_detect(
        force_colours: bool,
        is_tty: bool,
        term_program: Option<&str>,
        vte_version: Option<&str>,
    ) -> (r: Format)
        ensures
            r@ == detected_format(
                force_colours,
                is_tty,
                term_program.deep_view(),
                vte_version.deep_view(),
            ),
            r@.wf(),
    {
        if is_tty {
            match Terminal::detect(term_program, vte_version) {
                Terminal::ITerm2 => Format {
                    basic_colours: true,
                    inline_links: true,
                    inline_images: true,
                    iterm_marks: true,
                },
                Terminal::VTE50 => Format {
                    basic_colours: true,
                    inline_links: true,
                    ..Format::empty()
                },
                Terminal::Unknown => Format { basic_colours: true, ..Format::empty() },
            }
        } else {
            Format { basic_colours: force_colours, ..Format::empty() }
        }
    }

    /// Whether this format enables colours.
    pub fn enables_colours(&self) -> (r: bool)
        ensures
            r == self@.basic_colours,
    {
        self.basic_colours
    }

    /// Whether this format enables inline links.
    pub fn enables_inline_links(&self) -> (r: bool)
        ensures
            r == self@.inline_links,
    {
        self.inline_links
    }

    /// Whether this format enables inline images.
    pub fn enables_inline_images(&self) -> (r: bool)
        ensures
            r == self@.inline_images,
    {
        self.inline_images
    }

    /// Whether this format enables marks.
    pub fn enables_iterm_marks(&self) -> (r: bool)
        ensures
            r == self@.iterm_marks,
    {
        self.iterm_marks
    }
}

/// Every detected format enables colours where it enables links, images or
/// marks.
pub proof fn lemma_detected_format_wf(
    force_colours: bool,
    is_tty: bool,
    term_program: Option<Seq<char>>,
    vte: Option<Seq<char>>,
)
    ensures
        detected_format(force_colours, is_tty, term_program, vte).wf(),
{
}

/// Two formats with all flags off, as [`Format::empty`] returns them, are
/// equal.
pub proof fn lemma_empty_formats_equal(a: Format, b: Format)
    requires
        a@ == flags(false, false, false, false),
        b@ == flags(false, false, false, false),
    ensures
        a == b,
{
}

/// The text of an OSC sequence around `command`: ESC, `]`, the command, BEL.
pub open spec fn osc_text(command: Seq<char>) -> Seq<char> {
    seq!['\x1B', ']'] + command + seq!['\x07']
}

/// An OSC command for a terminal.
#[derive(Debug, Clone, Copy)]
pub struct OSC<'a> {
    command: &'a str,
}

impl<'a> View for OSC<'a> {
    type V = Seq<char>;

    closed spec fn view(&self) -> Seq<char> {
        self.command@
    }
}

/// Create an OSC command for the terminal.
pub fn osc(command: &str) -> (r: OSC)
    ensures
        r@ == command@,
{
    OSC { command }
}

impl<'a> OSC<'a> {
    /// The control sequence as text.
    pub fn render(&self) -> (r: String)
        ensures
            r@ == osc_text(self@),
    {
        let mut text = String::from_str("\x1B]");
        text.append(self.command);
        text.append("\x07");
        proof {
            reveal_strlit("\x1B]");
            reveal_strlit("\x07");
        }
        assert(text@ =~= osc_text(self@));
        text
    }
}

} // verus!
