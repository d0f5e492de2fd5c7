use vstd::prelude::*;

verus! {

/// Run configuration, built once from the command line and immutable
/// afterwards. Mirrors the recognized options: input source (file path or
/// standard input), line limit, line-number prefixes, byte budget, byte
/// offset, interactive pagination, fixed-width truncation, reverse order.
pub struct Config {
    /// Positional file path, if one was given.
    pub file_path: Option<String>,
    /// Maximum number of lines to consider (default 10).
    pub num_lines: usize,
    /// Read from standard input instead of a file.
    pub use_stdin: bool,
    /// Prefix each emitted line with a right-aligned 6-column 1-based
    /// line number followed by a space.
    pub line_numbers: bool,
    /// Stop once the cumulative byte count has reached this budget.
    pub num_bytes: Option<usize>,
    /// Skip lines until the cumulative byte count has reached this offset.
    pub byte_offset: Option<usize>,
    /// After each emitted line, wait for one line on standard input and
    /// stop when it reads as a quit request.
    pub paginate: bool,
    /// Cut lines longer than 80 bytes down to 77 bytes plus an ellipsis.
    pub truncate: bool,
    /// Reverse the whole sequence of lines before any other filter.
    pub reverse: bool,
}

impl Default for Config {
    /// No input source, a line limit of 10, and every optional feature off.
    fn default() -> (c: Config)
        ensures
            c.file_path is None,
            c.num_lines == 10,
            !c.use_stdin,
            !c.line_numbers,
            c.num_bytes is None,
            c.byte_offset is None,
            !c.paginate,
            !c.truncate,
            !c.reverse,
    {
        Config {
            file_path: None,
            num_lines: 10,
            use_stdin: false,
            line_numbers: false,
            num_bytes: None,
            byte_offset: None,
            paginate: false,
            truncate: false,
            reverse: false,
        }
    }
}

/// Where the emitter's bytes come from, decided once from the
/// configuration.
pub enum InputChoice {
    /// Read the data from standard input.
    FromStdin,
    /// Open and read the named file.
    FromFile(String),
    /// Neither source was given: report on standard error and exit cleanly.
    NoSource,
}

/// Decide the input source: the stdin flag takes precedence over a file
/// path, and without either the run has no source.
pub fn choose_input(use_stdin: bool, file_path: Option<String>) -> (r: InputChoice)
    ensures
        use_stdin ==> r is FromStdin,
        !use_stdin && file_path is Some ==> r is FromFile && r->0 == file_path->0,
        !use_stdin && file_path is None ==> r is NoSource,
{
    if use_stdin {
        InputChoice::FromStdin
    } else {
        match file_path {
            Some(path) => InputChoice::FromFile(path),
            None => InputChoice::NoSource,
        }
    }
}

/// The diagnostic written to standard error when the run has no source.
pub fn no_source_message() -> (m: &'static str)
    ensures
        m@ == "No file or stdin specified."@,
{
    "No file or stdin specified."
}

/// The Unicode White_Space code points — exactly what trimming a string
/// removes from its ends: the ASCII whitespace controls and space, next
/// line, no-break space, ogham space mark, the en-quad to hair-space
/// range, line and paragraph separators, narrow no-break space, medium
/// mathematical space and ideographic space.
pub open spec fn is_white_space(c: char) -> bool {
    let u = c as u32;
    ||| u == 0x20
    ||| 0x09 <= u <= 0x0D
    ||| u == 0x85
    ||| u == 0xA0
    ||| u == 0x1680
    ||| 0x2000 <= u <= 0x200A
    ||| u == 0x2028
    ||| u == 0x2029
    ||| u == 0x202F
    ||| u == 0x205F
    ||| u == 0x3000
}

/// How many characters of `s` are not white space.
pub open spec fn non_ws_count(s: Seq<char>) -> nat
    decreases s.len(),
{
    if s.len() == 0 {
        0
    } else {
        non_ws_count(s.drop_last()) + (if is_white_space(s.last()) {
            0nat
        } else {
            1nat
        })
    }
}

/// A pagination prompt reply asks to quit when, once surrounding white
/// space is trimmed away, it reads exactly "q", case-insensitively: a
/// single character that is not white space, and it is `q` or `Q`.
pub open spec fn quit_requested(s: Seq<char>) -> bool {
    &&& non_ws_count(s) == 1
    &&& forall|j: int| 0 <= j < s.len() && !is_white_space(s[j]) ==> s[j] == 'q' || s[j] == 'Q'
}

fn char_is_white_space(c: char) -> (r: bool)
    ensures
        r == is_white_space(c),
{
    let u = c as u32;
    u == 0x20 || (0x09 <= u && u <= 0x0D) || u == 0x85 || u == 0xA0 || u == 0x1680 || (0x2000
        <= u && u <= 0x200A) || u == 0x2028 || u == 0x2029 || u == 0x202F || u == 0x205F || u
        == 0x3000
}

/// Decide whether a pagination prompt reply, as a sequence of characters,
/// asks to stop emitting.
pub fn is_quit(input: &Vec<char>) -> (r: bool)
    ensures
        r == quit_requested(input@),
{
    let mut count: usize = 0;
    let mut all_q: bool = true;
    let mut k: usize = 0;
    while k < input.len()
        invariant
            k <= input@.len(),
            count <= k,
            count as nat == non_ws_count(input@.take(k as int)),
            all_q == (forall|j: int|
                0 <= j < k && !is_white_space(input@[j]) ==> input@[j] == 'q' || input@[j]
                    == 'Q'),
        decreases input@.len() - k,
    {
        let c = input[k];
        let ws = char_is_white_space(c);
        if !ws {
            count = count + 1;
            if !(c == 'q' || c == 'Q') {
                all_q = false;
            }
        }
        proof {
            assert(input@.take(k as int + 1).drop_last() =~= input@.take(k as int));
            assert(input@.take(k as int + 1).last() == input@[k as int]);
        }
        k = k + 1;
    }
    proof {
        assert(input@.take(input@.len() as int) =~= input@);
    }
    count == 1 && all_q
}

} // verus!
