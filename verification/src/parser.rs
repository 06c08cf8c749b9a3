use crate::grammar::{
    closes_command, command_token, find_close, name_len, next_token, parse_spec, parse_tokens,
    plain_len, prepend, static_token, variable_token,
};
use crate::segment::{views, Segment, SegmentView};
use crate::text::{char_is_whitespace, collect, to_chars};
use vstd::prelude::*;

verus! {

/// Why a template could not be parsed.
#[derive(Debug, Clone, Copy, PartialEq, Eq)]
pub enum ParseError {
    /// A command expression opened by `{{` is never closed by `}}`.
    /// `at` counts the characters before the opening delimiter.
    UnterminatedCommand { at: usize },
}

/// The result of a parse as the contracts speak of it: the segments' views, or
/// the error's position.
pub open spec fn outcome(res: Result<Vec<Segment>, ParseError>) -> Result<Seq<SegmentView>, int> {
    match res {
        Ok(segments) => Ok(views(segments@)),
        Err(ParseError::UnterminatedCommand { at }) => Err(at as int),
    }
}

/// The result of reading one segment, as the contracts speak of it.
pub open spec fn token_outcome(res: Option<(Segment, usize)>) -> Option<(SegmentView, int)> {
    match res {
        Some((segment, skip)) => Some((segment@, skip as int)),
        None => None,
    }
}

/// Reads the command expression whose opening delimiter is
/// `chars[start..start + 2]`. Returns its segment and the number of characters
/// taken up, delimiters included, or `None` where no closing delimiter follows.
pub fn parse_script(chars: &Vec<char>, start: usize) -> (res: Option<(Segment, usize)>)
    requires
        start + 2 <= chars@.len(),
    ensures
        token_outcome(res) == command_token(chars@.skip(start as int)),
        res matches Some((_, skip)) ==> 4 <= skip && start + skip <= chars@.len(),
{
    let ghost s = chars@.skip(start as int);
    let ghost body = s.skip(2);
    let n: usize = chars.len();
    let from: usize = start + 2;
    let mut i: usize = from;
    proof {
        assert(chars@.skip(from as int) =~= body);
    }
    while n - i >= 2
        invariant
            n == chars@.len(),
            from == start + 2,
            from <= i <= n,
            s == chars@.skip(start as int),
            body == chars@.skip(from as int),
            match find_close(chars@.skip(i as int)) {
                Some(k) => find_close(body) == Some(k + (i - from)),
                None => find_close(body) is None,
            },
        decreases n - i,
    {
        let ghost t = chars@.skip(i as int);
        if chars[i] == '}' && chars[i + 1] == '}' {
            assert(closes_command(t));
            let text = collect(chars, from, i);
            proof {
                assert(find_close(t) == Some(0int));
                assert(s.skip(2) =~= body);
                assert(chars@.subrange(from as int, i as int) =~= s.subrange(2, 2 + (i - from)));
            }
            return Some((Segment::Command(text), i - start + 2));
        }
        proof {
            assert(!closes_command(t));
            assert(t.skip(1) =~= chars@.skip(i + 1));
        }
        i += 1;
    }
    proof {
        assert(chars@.skip(i as int).len() < 2);
        assert(s.skip(2) =~= body);
    }
    None
}

/// Reads the variable reference whose hash is `chars[start]`: the hash and
/// the name after it, which ends at the first whitespace.
pub fn parse_variable(chars: &Vec<char>, start: usize) -> (res: (Segment, usize))
    requires
        start < chars@.len(),
    ensures
        (res.0@, res.1 as int) == variable_token(chars@.skip(start as int)),
        0 < res.1 && start + res.1 <= chars@.len(),
{
    let ghost s = chars@.skip(start as int);
    let ghost rest = s.skip(1);
    let n: usize = chars.len();
    let from: usize = start + 1;
    let mut i: usize = from;
    proof {
        assert(chars@.skip(from as int) =~= rest);
    }
    while i < n && !char_is_whitespace(chars[i])
        invariant
            n == chars@.len(),
            from == start + 1,
            from <= i <= n,
            s == chars@.skip(start as int),
            rest == chars@.skip(from as int),
            name_len(rest) == (i - from) + name_len(chars@.skip(i as int)),
        decreases n - i,
    {
        proof {
            assert(chars@.skip(i as int).skip(1) =~= chars@.skip(i + 1));
        }
        i += 1;
    }
    let name = collect(chars, from, i);
    proof {
        assert(name_len(chars@.skip(i as int)) == 0);
        assert(chars@.subrange(from as int, i as int) =~= s.subrange(1, 1 + (i - from)));
    }
    (Segment::Variable(name), i - start)
}

/// Reads the static text that starts at `chars[start]`: that character, and
/// what follows it up to the next hash or opening delimiter.
pub fn parse_static(chars: &Vec<char>, start: usize) -> (res: (Segment, usize))
    requires
        start < chars@.len(),
    ensures
        (res.0@, res.1 as int) == static_token(chars@.skip(start as int)),
        0 < res.1 && start + res.1 <= chars@.len(),
{
    let ghost s = chars@.skip(start as int);
    let ghost rest = chars@.skip(start + 1);
    let n: usize = chars.len();
    let from: usize = start + 1;
    let mut i: usize = from;
    proof {
        assert(s.skip(1) =~= rest);
    }
    while i < n && chars[i] != '#' && !(i + 1 < n && chars[i] == '{' && chars[i + 1] == '{')
        invariant
            n == chars@.len(),
            from == start + 1,
            from <= i <= n,
            s == chars@.skip(start as int),
            rest == chars@.skip(from as int),
            plain_len(rest) == (i - from) + plain_len(chars@.skip(i as int)),
        decreases n - i,
    {
        proof {
            assert(chars@.skip(i as int).skip(1) =~= chars@.skip(i + 1));
        }
        i += 1;
    }
    let text = collect(chars, start, i);
    proof {
        assert(plain_len(chars@.skip(i as int)) == 0);
        assert(chars@.subrange(start as int, i as int) =~= s.subrange(0, 1 + (i - from)));
    }
    (Segment::Static(text), i - start)
}

/// Reads the segment that starts at `chars[start]`.
pub fn parse_token(chars: &Vec<char>, start: usize, variables: bool) -> (res: Option<
    (Segment, usize),
>)
    requires
        start < chars@.len(),
    ensures
        token_outcome(res) == next_token(chars@.skip(start as int), variables),
        res matches Some((_, skip)) ==> 0 < skip && start + skip <= chars@.len(),
{
    let ghost s = chars@.skip(start as int);
    let n: usize = chars.len();
    proof {
        assert(s.skip(1) =~= chars@.skip(start + 1));
    }
    if start + 1 < n {
        let first = chars[start];
        let second = chars[start + 1];
        if first == '{' && second == '{' {
            return parse_script(chars, start);
        }
        if first == '#' && second == '#' {
            let text = collect(chars, start, start + 1);
            proof {
                assert(chars@.subrange(start as int, start + 1) =~= seq!['#']);
            }
            return Some((Segment::Static(text), 2));
        }
        if variables && first == '#' {
            return Some(parse_variable(chars, start));
        }
    }
    Some(parse_static(chars, start))
}

/// Parses a template into its segments, left to right. With `variables` off,
/// the template language has no variable references, and a hash that starts no
/// escape is static text.
///
/// Fails exactly where a command expression is opened and never closed, with
/// the position of the first such opening delimiter.
pub fn parse_with(input: &str, variables: bool) -> (res: Result<Vec<Segment>, ParseError>)
    ensures
        outcome(res) == parse_spec(input@, variables),
{
    let chars = to_chars(input);
    let n: usize = chars.len();
    let mut tokens: Vec<Segment> = Vec::new();
    if n == 0 {
        tokens.push(Segment::Static(String::new()));
        proof {
            assert(views(tokens@) =~= seq![SegmentView::Static(Seq::empty())]);
        }
        return Ok(tokens);
    }
    let mut pos: usize = 0;
    proof {
        assert(chars@.skip(0) =~= chars@);
        assert(views(tokens@) =~= Seq::empty());
        lemma_prepend_nothing(parse_tokens(chars@, variables));
    }
    while pos < n
        invariant
            n == chars@.len(),
            chars@ == input@,
            pos <= n,
            parse_tokens(chars@, variables) == prepend(
                views(tokens@),
                pos as int,
                parse_tokens(chars@.skip(pos as int), variables),
            ),
        decreases n - pos,
    {
        let ghost s = chars@.skip(pos as int);
        let ghost before = views(tokens@);
        match parse_token(&chars, pos, variables) {
            Some((token, skip)) => {
                proof {
                    assert(s.skip(skip as int) =~= chars@.skip(pos + skip));
                    lemma_prepend_twice(
                        before,
                        pos as int,
                        seq![token@],
                        skip as int,
                        parse_tokens(s.skip(skip as int), variables),
                    );
                }
                tokens.push(token);
                pos += skip;
                proof {
                    assert(views(tokens@) =~= before + seq![token@]);
                }
            },
            None => {
                return Err(ParseError::UnterminatedCommand { at: pos });
            },
        }
    }
    Ok(tokens)
}

/// Parses a template into its segments, left to right: static text, command
/// expressions and variable references.
pub fn parse_input(input: &str) -> (res: Result<Vec<Segment>, ParseError>)
    ensures
        outcome(res) == parse_spec(input@, true),
{
    parse_with(input, true)
}

proof fn lemma_prepend_nothing(rest: Result<Seq<SegmentView>, int>)
    ensures
        prepend(Seq::empty(), 0, rest) == rest,
{
    match rest {
        Ok(segments) => {
            assert(Seq::<SegmentView>::empty() + segments =~= segments);
        },
        Err(_) => {},
    }
}

proof fn lemma_prepend_twice(
    a: Seq<SegmentView>,
    m: int,
    b: Seq<SegmentView>,
    n: int,
    rest: Result<Seq<SegmentView>, int>,
)
    ensures
        prepend(a, m, prepend(b, n, rest)) == prepend(a + b, m + n, rest),
{
    match rest {
        Ok(segments) => {
            assert(a + (b + segments) =~= (a + b) + segments);
        },
        Err(_) => {},
    }
}

} // verus!
