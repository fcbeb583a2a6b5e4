//! Splitting a shader source file into its programs.
//!
//! A shader source holds programs written as `program <name> { <source> }`. The parser reads two
//! programs, meant as the vertex program and the fragment program. The second search starts at
//! the position of the first program's closing brace counted from its opening brace, not from the
//! start of the source: when that count is no larger than where the first program begins, the
//! second search finds the first program again.

use vstd::prelude::*;
use vstd::string::StrSliceExecFns;

verus! {

#[derive(Debug, Clone, PartialEq, Eq, Hash)]
pub enum ParseShaderError {
    NoVertProgram,
    NoFragProgram,
    MultipleVertShader,
    MultipleFragShader,
    ProgramMissingName,
    UnmatchedBraces,
    MissingOpeningBrace,
    CompileError(String),
    LinkError(String),
}

#[derive(Debug, Clone)]
pub struct ShaderParser;

/// One program of a shader source: its name and the source between its braces, without
/// surrounding whitespace.
#[derive(Debug, Clone)]
pub struct ShaderProgramSrc<'a> {
    pub name: &'a str,
    pub src: &'a str,
}

/// Unicode white space, as `char::is_whitespace` defines it.
pub open spec fn is_whitespace(c: char) -> bool {
    let v = c as u32;
    ||| 9 <= v <= 13
    ||| v == 32
    ||| v == 0x85
    ||| v == 0xa0
    ||| v == 0x1680
    ||| 0x2000 <= v <= 0x200a
    ||| v == 0x2028
    ||| v == 0x2029
    ||| v == 0x202f
    ||| v == 0x205f
    ||| v == 0x3000
}

/// The first index in `i..hi` that holds white space, or `hi`.
pub open spec fn scan_to_whitespace(s: Seq<char>, i: int, hi: int) -> int
    decreases hi - i,
{
    if i >= hi {
        hi
    } else if is_whitespace(s[i]) {
        i
    } else {
        scan_to_whitespace(s, i + 1, hi)
    }
}

/// The first index in `i..hi` that does not hold white space, or `hi`.
pub open spec fn skip_whitespace(s: Seq<char>, i: int, hi: int) -> int
    decreases hi - i,
{
    if i >= hi {
        hi
    } else if !is_whitespace(s[i]) {
        i
    } else {
        skip_whitespace(s, i + 1, hi)
    }
}

/// The end of `lo..hi` once trailing white space is removed.
pub open spec fn trim_end(s: Seq<char>, lo: int, hi: int) -> int
    decreases hi - lo,
{
    if hi <= lo {
        lo
    } else if !is_whitespace(s[hi - 1]) {
        hi
    } else {
        trim_end(s, lo, hi - 1)
    }
}

/// The first index at or after `i` that holds `c`, or the length of `s`.
pub open spec fn find_char(s: Seq<char>, i: int, c: char) -> int
    decreases s.len() - i,
{
    if i >= s.len() {
        s.len() as int
    } else if s[i] == c {
        i
    } else {
        find_char(s, i + 1, c)
    }
}

/// The word that introduces a program.
pub open spec fn program_keyword() -> Seq<char> {
    seq!['p', 'r', 'o', 'g', 'r', 'a', 'm']
}

/// `s` holds `program` starting at `i`.
pub open spec fn keyword_at(s: Seq<char>, i: int) -> bool {
    &&& 0 <= i
    &&& i + 7 <= s.len()
    &&& s.subrange(i, i + 7) == program_keyword()
}

/// The first index at or after `i` where `program` starts.
pub open spec fn find_keyword(s: Seq<char>, i: int) -> Option<int>
    decreases s.len() - i,
{
    if i < 0 || i + 7 > s.len() {
        None
    } else if keyword_at(s, i) {
        Some(i)
    } else {
        find_keyword(s, i + 1)
    }
}

/// Opening minus closing braces in `b..n`.
pub open spec fn brace_depth(s: Seq<char>, b: int, n: int) -> int
    decreases n - b,
{
    if n <= b {
        0
    } else {
        brace_depth(s, b, n - 1) + if s[n - 1] == '{' {
            1int
        } else if s[n - 1] == '}' {
            -1int
        } else {
            0int
        }
    }
}

/// The first index at or after `k` holding the `}` that closes the block opened at `b`.
pub open spec fn closing_brace(s: Seq<char>, b: int, k: int) -> Option<int>
    decreases s.len() - k,
{
    if k < b || k >= s.len() {
        None
    } else if s[k] == '}' && brace_depth(s, b, k + 1) == 0 {
        Some(k)
    } else {
        closing_brace(s, b, k + 1)
    }
}

/// Where a parsed program lies: its name is `name_start..name_end`, its trimmed source is
/// `src_start..src_end`, and `end` is the position of its closing brace counted from its
/// opening brace.
pub struct ProgramSpan {
    pub name_start: int,
    pub name_end: int,
    pub src_start: int,
    pub src_end: int,
    pub end: int,
}

/// Parses the first program at or after `lo`: the first `program`, the next word as its name,
/// and the first brace block after the keyword as its source.
pub open spec fn parse_program_at(s: Seq<char>, lo: int) -> Result<ProgramSpan, ParseShaderError> {
    match find_keyword(s, lo) {
        None => Err(ParseShaderError::NoVertProgram),
        Some(p) => {
            let len = s.len() as int;
            let name_start = skip_whitespace(s, scan_to_whitespace(s, p, len), len);
            if name_start == len {
                Err(ParseShaderError::ProgramMissingName)
            } else {
                let b = find_char(s, p, '{');
                if b == len {
                    Err(ParseShaderError::MissingOpeningBrace)
                } else {
                    match closing_brace(s, b, b) {
                        None => Err(ParseShaderError::UnmatchedBraces),
                        Some(k) => {
                            let src_start = skip_whitespace(s, b + 1, k);
                            Ok(
                                ProgramSpan {
                                    name_start: name_start,
                                    name_end: scan_to_whitespace(s, name_start, len),
                                    src_start: src_start,
                                    src_end: trim_end(s, src_start, k),
                                    end: k - b,
                                },
                            )
                        },
                    }
                }
            }
        },
    }
}

/// Parses two programs: the second search starts at the position that the first program's
/// closing brace has counted from its opening brace.
pub open spec fn parse_shader(s: Seq<char>) -> Result<Seq<ProgramSpan>, ParseShaderError> {
    match parse_program_at(s, 0) {
        Err(e) => Err(e),
        Ok(first) => match parse_program_at(s, first.end) {
            Err(e) => Err(e),
            Ok(second) => Ok(seq![first, second]),
        },
    }
}

/// The code points of Unicode's White_Space property, which `char::is_whitespace` tests: tab,
/// line feed, vertical tab, form feed, carriage return, space, next line, no-break space,
/// ogham space mark, the spaces from en quad to hair space, line separator, paragraph
/// separator, narrow no-break space, medium mathematical space and ideographic space.
pub open spec fn unicode_white_space() -> Set<u32> {
    set![
        9u32, 10u32, 11u32, 12u32, 13u32, 32u32, 0x85u32, 0xa0u32, 0x1680u32, 0x2000u32, 0x2001u32,
        0x2002u32, 0x2003u32, 0x2004u32, 0x2005u32, 0x2006u32, 0x2007u32, 0x2008u32, 0x2009u32,
        0x200au32, 0x2028u32, 0x2029u32, 0x202fu32, 0x205fu32, 0x3000u32,
    ]
}

/// The white space that trimming and word splitting skip is exactly Unicode white space: tab
/// and carriage return among it, as well as space and line feed.
pub proof fn lemma_whitespace_is_unicode_white_space(c: char)
    ensures
        is_whitespace(c) <==> unicode_white_space().contains(c as u32),
        is_whitespace('\t') && is_whitespace('\r') && is_whitespace('\n') && is_whitespace(' '),
{
    let v = c as u32;
    if 0x2000 <= v <= 0x200a {
        assert(unicode_white_space().contains(v));
    }
}

proof fn lemma_skip_whitespace(s: Seq<char>, i: int, hi: int)
    requires
        0 <= i <= hi <= s.len(),
    ensures
        i <= skip_whitespace(s, i, hi) <= hi,
        skip_whitespace(s, i, hi) < hi ==> !is_whitespace(s[skip_whitespace(s, i, hi)]),
        forall|j: int| i <= j < skip_whitespace(s, i, hi) ==> is_whitespace(#[trigger] s[j]),
    decreases hi - i,
{
    if i < hi && is_whitespace(s[i]) {
        lemma_skip_whitespace(s, i + 1, hi);
    }
}

proof fn lemma_scan_to_whitespace(s: Seq<char>, i: int, hi: int)
    requires
        0 <= i <= hi <= s.len(),
    ensures
        i <= scan_to_whitespace(s, i, hi) <= hi,
        scan_to_whitespace(s, i, hi) < hi ==> is_whitespace(s[scan_to_whitespace(s, i, hi)]),
        forall|j: int| i <= j < scan_to_whitespace(s, i, hi) ==> !is_whitespace(#[trigger] s[j]),
    decreases hi - i,
{
    if i < hi && !is_whitespace(s[i]) {
        lemma_scan_to_whitespace(s, i + 1, hi);
    }
}

proof fn lemma_trim_end(s: Seq<char>, lo: int, hi: int)
    requires
        0 <= lo <= hi <= s.len(),
    ensures
        lo <= trim_end(s, lo, hi) <= hi,
        trim_end(s, lo, hi) > lo ==> !is_whitespace(s[trim_end(s, lo, hi) - 1]),
        forall|j: int| trim_end(s, lo, hi) <= j < hi ==> is_whitespace(#[trigger] s[j]),
    decreases hi - lo,
{
    if lo < hi && is_whitespace(s[hi - 1]) {
        lemma_trim_end(s, lo, hi - 1);
    }
}

/// A parsed program's name is a non-empty word with no white space in it, and its source
/// is trimmed: it neither starts nor ends with white space, and the white space cut off
/// around it is all white space.
pub proof fn lemma_program_parts_trimmed(s: Seq<char>, lo: int)
    requires
        0 <= lo,
    ensures
        parse_program_at(s, lo) matches Ok(span) ==> {
            &&& 0 <= span.name_start < span.name_end <= s.len()
            &&& forall|j: int| span.name_start <= j < span.name_end ==> !is_whitespace(#[trigger] s[j])
            &&& 0 <= span.src_start <= span.src_end <= s.len()
            &&& span.src_start < span.src_end ==> !is_whitespace(s[span.src_start]) && !is_whitespace(
                s[span.src_end - 1],
            )
        },
{
    if let Some(p) = find_keyword(s, lo) {
        lemma_find_keyword_bounds(s, lo);
        let len = s.len() as int;
        lemma_scan_to_whitespace(s, p, len);
        let after = scan_to_whitespace(s, p, len);
        lemma_skip_whitespace(s, after, len);
        let name_start = skip_whitespace(s, after, len);
        if name_start < len {
            lemma_scan_to_whitespace(s, name_start, len);
            lemma_find_char(s, p, '{');
            let b = find_char(s, p, '{');
            if b < len {
                lemma_closing_brace_bounds(s, b, b);
                if let Some(k) = closing_brace(s, b, b) {
                    assert(k != b);
                    lemma_skip_whitespace(s, b + 1, k);
                    let src_start = skip_whitespace(s, b + 1, k);
                    lemma_trim_end(s, src_start, k);
                    let src_end = trim_end(s, src_start, k);
                    if src_start < src_end {
                        assert(src_start < k);
                    }
                }
            }
        }
    }
}

/// `program` is the text that `span` delimits in `s`.
pub open spec fn program_matches(s: Seq<char>, program: ShaderProgramSrc, span: ProgramSpan) -> bool {
    &&& 0 <= span.name_start <= span.name_end <= s.len()
    &&& 0 <= span.src_start <= span.src_end <= s.len()
    &&& program.name@ == s.subrange(span.name_start, span.name_end)
    &&& program.src@ == s.subrange(span.src_start, span.src_end)
}

fn is_whitespace_char(c: char) -> (ws: bool)
    ensures
        ws == is_whitespace(c),
{
    let v = c as u32;
    (9 <= v && v <= 13) || v == 32 || v == 0x85 || v == 0xa0 || v == 0x1680 || (0x2000 <= v && v
        <= 0x200a) || v == 0x2028 || v == 0x2029 || v == 0x202f || v == 0x205f || v == 0x3000
}

fn chars_of(s: &str) -> (chars: Vec<char>)
    ensures
        chars@ == s@,
{
    let n = s.unicode_len();
    let mut chars: Vec<char> = Vec::new();
    let mut i: usize = 0;
    while i < n
        invariant
            n == s@.len(),
            i <= n,
            chars@ == s@.subrange(0, i as int),
        decreases n - i,
    {
        chars.push(s.get_char(i));
        i = i + 1;
        assert(chars@ =~= s@.subrange(0, i as int));
    }
    assert(chars@ =~= s@);
    chars
}

fn scan_to_whitespace_exec(s: &Vec<char>, i: usize, hi: usize) -> (r: usize)
    requires
        i <= hi <= s@.len(),
    ensures
        r == scan_to_whitespace(s@, i as int, hi as int),
        i <= r <= hi,
{
    let mut k = i;
    while k < hi
        invariant
            i <= k <= hi <= s@.len(),
            scan_to_whitespace(s@, k as int, hi as int) == scan_to_whitespace(s@, i as int, hi as int),
        decreases hi - k,
    {
        if is_whitespace_char(s[k]) {
            return k;
        }
        k = k + 1;
    }
    k
}

fn skip_whitespace_exec(s: &Vec<char>, i: usize, hi: usize) -> (r: usize)
    requires
        i <= hi <= s@.len(),
    ensures
        r == skip_whitespace(s@, i as int, hi as int),
        i <= r <= hi,
{
    let mut k = i;
    while k < hi
        invariant
            i <= k <= hi <= s@.len(),
            skip_whitespace(s@, k as int, hi as int) == skip_whitespace(s@, i as int, hi as int),
        decreases hi - k,
    {
        if !is_whitespace_char(s[k]) {
            return k;
        }
        k = k + 1;
    }
    k
}

fn trim_end_exec(s: &Vec<char>, lo: usize, hi: usize) -> (r: usize)
    requires
        lo <= hi <= s@.len(),
    ensures
        r == trim_end(s@, lo as int, hi as int),
        lo <= r <= hi,
{
    let mut k = hi;
    while k > lo
        invariant
            lo <= k <= hi <= s@.len(),
            trim_end(s@, lo as int, k as int) == trim_end(s@, lo as int, hi as int),
        decreases k - lo,
    {
        if !is_whitespace_char(s[k - 1]) {
            return k;
        }
        k = k - 1;
    }
    k
}

fn find_char_exec(s: &Vec<char>, i: usize, c: char) -> (r: usize)
    requires
        i <= s@.len(),
    ensures
        r == find_char(s@, i as int, c),
        i <= r <= s@.len(),
{
    let mut k = i;
    while k < s.len()
        invariant
            i <= k <= s@.len(),
            find_char(s@, k as int, c) == find_char(s@, i as int, c),
        decreases s@.len() - k,
    {
        if s[k] == c {
            return k;
        }
        k = k + 1;
    }
    k
}

fn keyword_at_exec(s: &Vec<char>, i: usize) -> (m: bool)
    requires
        i + 7 <= s@.len(),
    ensures
        m == keyword_at(s@, i as int),
{
    let _ = s.len();
    let m = s[i] == 'p' && s[i + 1] == 'r' && s[i + 2] == 'o' && s[i + 3] == 'g' && s[i + 4] == 'r'
        && s[i + 5] == 'a' && s[i + 6] == 'm';
    if m {
        assert(s@.subrange(i as int, i + 7) =~= program_keyword());
    } else {
        assert(s@.subrange(i as int, i + 7) != program_keyword()) by {
            if s@.subrange(i as int, i + 7) == program_keyword() {
                assert(s@.subrange(i as int, i + 7)[0] == 'p');
                assert(s@.subrange(i as int, i + 7)[1] == 'r');
                assert(s@.subrange(i as int, i + 7)[2] == 'o');
                assert(s@.subrange(i as int, i + 7)[3] == 'g');
                assert(s@.subrange(i as int, i + 7)[4] == 'r');
                assert(s@.subrange(i as int, i + 7)[5] == 'a');
                assert(s@.subrange(i as int, i + 7)[6] == 'm');
            }
        }
    }
    m
}

fn find_keyword_exec(s: &Vec<char>, i: usize) -> (r: Option<usize>)
    requires
        i <= s@.len(),
    ensures
        match r {
            Some(p) => find_keyword(s@, i as int) == Some(p as int),
            None => find_keyword(s@, i as int) is None,
        },
{
    let mut k = i;
    while k < s.len() && 7 <= s.len() - k
        invariant
            i <= k <= s@.len(),
            find_keyword(s@, k as int) == find_keyword(s@, i as int),
        decreases s@.len() - k,
    {
        if keyword_at_exec(s, k) {
            return Some(k);
        }
        k = k + 1;
    }
    None
}

impl ShaderParser {
    /// Parses the first two programs of `shader_src`.
    pub fn parse<'a>(shader_src: &'a str) -> (result: Result<Vec<ShaderProgramSrc<'a>>, ParseShaderError>)
        ensures
            match parse_shader(shader_src@) {
                Err(e) => result == Err::<Vec<ShaderProgramSrc<'a>>, ParseShaderError>(e),
                Ok(spans) => result matches Ok(programs) && programs@.len() == 2 && program_matches(
                    shader_src@,
                    programs@[0],
                    spans[0],
                ) && program_matches(shader_src@, programs@[1], spans[1]),
            },
    {
        let chars = chars_of(shader_src);
        let mut programs: Vec<ShaderProgramSrc<'a>> = Vec::new();
        let mut index: usize = 0;
        let ghost mut spans: Seq<ProgramSpan> = Seq::empty();
        while programs.len() < 2
            invariant
                chars@ == shader_src@,
                programs@.len() <= 2,
                programs@.len() == spans.len(),
                programs@.len() == 0 ==> index == 0,
                programs@.len() >= 1 ==> parse_program_at(shader_src@, 0) == Ok::<ProgramSpan, ParseShaderError>(spans[0])
                    && program_matches(shader_src@, programs@[0], spans[0]),
                programs@.len() == 1 ==> index == spans[0].end,
                programs@.len() == 2 ==> parse_program_at(shader_src@, spans[0].end) == Ok::<ProgramSpan, ParseShaderError>(spans[1])
                    && program_matches(shader_src@, programs@[1], spans[1]),
                index <= shader_src@.len(),
            decreases 2 - programs@.len(),
        {
            let (program, end_index) = match ShaderParser::parse_program(shader_src, &chars, index) {
                Ok(parsed) => parsed,
                Err(e) => {
                    return Err(e);
                },
            };
            proof {
                spans = spans.push(parse_program_at(shader_src@, index as int)->Ok_0);
            }
            programs.push(program);
            index = end_index;
        }
        Ok(programs)
    }

    /// Parses the first program at or after `lo`, returning it with the position of its closing
    /// brace counted from its opening brace.
    fn parse_program<'a>(shader_src: &'a str, chars: &Vec<char>, lo: usize) -> (result: Result<
        (ShaderProgramSrc<'a>, usize),
        ParseShaderError,
    >)
        requires
            chars@ == shader_src@,
            lo <= chars@.len(),
        ensures
            match parse_program_at(shader_src@, lo as int) {
                Err(e) => result == Err::<(ShaderProgramSrc<'a>, usize), ParseShaderError>(e),
                Ok(span) => result matches Ok((program, end)) && program_matches(
                    shader_src@,
                    program,
                    span,
                ) && end == span.end && end <= shader_src@.len(),
            },
    {
        let len = chars.len();
        let p = match find_keyword_exec(chars, lo) {
            Some(p) => p,
            None => {
                return Err(ParseShaderError::NoVertProgram);
            },
        };
        proof {
            lemma_find_keyword_bounds(chars@, lo as int);
        }
        let word_end = scan_to_whitespace_exec(chars, p, len);
        let name_start = skip_whitespace_exec(chars, word_end, len);
        if name_start == len {
            return Err(ParseShaderError::ProgramMissingName);
        }
        let name_end = scan_to_whitespace_exec(chars, name_start, len);
        let b = find_char_exec(chars, p, '{');
        if b == len {
            return Err(ParseShaderError::MissingOpeningBrace);
        }
        proof {
            lemma_find_char(chars@, p as int, '{');
        }
        let (src_start, src_end, end_index) = match ShaderParser::parse_braces_contents(chars, b) {
            Ok(r) => r,
            Err(e) => {
                return Err(e);
            },
        };
        let program = ShaderProgramSrc {
            name: shader_src.substring_char(name_start, name_end),
            src: shader_src.substring_char(src_start, src_end),
        };
        Ok((program, end_index))
    }

    /// Finds the block opened by the brace at `b`: returns the bounds of its contents without
    /// surrounding white space and the position of its closing brace counted from `b`. Fails if
    /// the brace is never closed.
    fn parse_braces_contents(chars: &Vec<char>, b: usize) -> (result: Result<(usize, usize, usize), ParseShaderError>)
        requires
            b < chars@.len(),
            chars@[b as int] == '{',
        ensures
            match closing_brace(chars@, b as int, b as int) {
                None => result == Err::<(usize, usize, usize), ParseShaderError>(ParseShaderError::UnmatchedBraces),
                Some(k) => result matches Ok((src_start, src_end, end)) && src_start == skip_whitespace(
                    chars@,
                    b + 1,
                    k,
                ) && src_end == trim_end(chars@, src_start as int, k) && end == k - b && b < k
                    < chars@.len() && b + 1 <= src_start <= src_end <= k,
            },
    {
        let mut depth: usize = 0;
        let mut k = b;
        while k < chars.len()
            invariant
                b <= k <= chars@.len(),
                chars@[b as int] == '{',
                depth == brace_depth(chars@, b as int, k as int),
                k > b ==> depth >= 1,
                depth <= k - b,
                closing_brace(chars@, b as int, k as int) == closing_brace(chars@, b as int, b as int),
            decreases chars@.len() - k,
        {
            let c = chars[k];
            if c == '{' {
                depth = depth + 1;
            } else if c == '}' {
                depth = depth - 1;
                if depth == 0 {
                    let src_start = skip_whitespace_exec(chars, b + 1, k);
                    let src_end = trim_end_exec(chars, src_start, k);
                    return Ok((src_start, src_end, k - b));
                }
            }
            k = k + 1;
        }
        Err(ParseShaderError::UnmatchedBraces)
    }
}

proof fn lemma_find_char(s: Seq<char>, i: int, c: char)
    requires
        0 <= i <= s.len(),
    ensures
        i <= find_char(s, i, c) <= s.len(),
        find_char(s, i, c) < s.len() ==> s[find_char(s, i, c)] == c,
    decreases s.len() - i,
{
    if i < s.len() && s[i] != c {
        lemma_find_char(s, i + 1, c);
    }
}

proof fn lemma_closing_brace_bounds(s: Seq<char>, b: int, k: int)
    requires
        b <= k,
    ensures
        closing_brace(s, b, k) matches Some(x) ==> k <= x < s.len() && s[x] == '}'
            && brace_depth(s, b, x + 1) == 0,
    decreases s.len() - k,
{
    if k < s.len() && !(s[k] == '}' && brace_depth(s, b, k + 1) == 0) {
        lemma_closing_brace_bounds(s, b, k + 1);
    }
}

proof fn lemma_find_keyword_bounds(s: Seq<char>, i: int)
    requires
        0 <= i,
    ensures
        find_keyword(s, i) matches Some(p) ==> i <= p && keyword_at(s, p),
    decreases s.len() - i,
{
    if i + 7 <= s.len() && !keyword_at(s, i) {
        lemma_find_keyword_bounds(s, i + 1);
    }
}

} // verus!
