use crate::segment::SegmentView;
use crate::slots::{join, lemma_join_concat, lemma_join_one};
use crate::text::is_whitespace;
use vstd::prelude::*;

verus! {

/// `s` starts with the delimiter that opens a command expression.
pub open spec fn opens_command(s: Seq<char>) -> bool {
    s.len() >= 2 && s[0] == '{' && s[1] == '{'
}

/// `s` starts with the delimiter that closes a command expression.
pub open spec fn closes_command(s: Seq<char>) -> bool {
    s.len() >= 2 && s[0] == '}' && s[1] == '}'
}

/// `s` starts with an escaped hash.
pub open spec fn is_escape(s: Seq<char>) -> bool {
    s.len() >= 2 && s[0] == '#' && s[1] == '#'
}

/// `s` starts with a variable reference: a hash followed by another character
/// that is not a hash.
pub open spec fn opens_variable(s: Seq<char>) -> bool {
    s.len() >= 2 && s[0] == '#' && s[1] != '#'
}

/// The number of characters before the first closing delimiter in `s`, if there
/// is one.
pub open spec fn find_close(s: Seq<char>) -> Option<int>
    decreases s.len(),
{
    if s.len() < 2 {
        None
    } else if closes_command(s) {
        Some(0)
    } else {
        match find_close(s.skip(1)) {
            Some(k) => Some(k + 1),
            None => None,
        }
    }
}

/// The number of characters at the start of `s` before the first whitespace.
pub open spec fn name_len(s: Seq<char>) -> int
    decreases s.len(),
{
    if s.len() == 0 || is_whitespace(s[0]) {
        0
    } else {
        1 + name_len(s.skip(1))
    }
}

/// The number of characters at the start of `s` before the first hash or
/// opening delimiter.
pub open spec fn plain_len(s: Seq<char>) -> int
    decreases s.len(),
{
    if s.len() == 0 || s[0] == '#' || opens_command(s) {
        0
    } else {
        1 + plain_len(s.skip(1))
    }
}

/// The command expression at the start of `s`, whose first two characters are
/// the opening delimiter: its text runs to the first closing delimiter, and it
/// takes up its text and both delimiters. `None` where it is not closed.
pub open spec fn command_token(s: Seq<char>) -> Option<(SegmentView, int)> {
    match find_close(s.skip(2)) {
        Some(k) => Some((SegmentView::Command(s.subrange(2, 2 + k)), k + 4)),
        None => None,
    }
}

/// The variable reference at the start of `s`, whose first character is the
/// hash: its name runs to the first whitespace.
pub open spec fn variable_token(s: Seq<char>) -> (SegmentView, int) {
    let n = name_len(s.skip(1));
    (SegmentView::Variable(s.subrange(1, 1 + n)), 1 + n)
}

/// The static text at the start of `s`: its first character as it is, and
/// what follows up to the next hash or opening delimiter.
pub open spec fn static_token(s: Seq<char>) -> (SegmentView, int) {
    let n = 1 + plain_len(s.skip(1));
    (SegmentView::Static(s.subrange(0, n)), n)
}

/// The segment at the start of a non-empty `s`, with the number of characters
/// it takes up; `None` where a command expression is not closed.
///
/// Text that starts no command, escape or variable is static. With `variables`
/// off, a hash that starts no escape is such text.
pub open spec fn next_token(s: Seq<char>, variables: bool) -> Option<(SegmentView, int)> {
    if opens_command(s) {
        command_token(s)
    } else if is_escape(s) {
        Some((SegmentView::Static(seq!['#']), 2))
    } else if variables && opens_variable(s) {
        Some(variable_token(s))
    } else {
        Some(static_token(s))
    }
}

/// The segments of `s`, left to right, or the position of the command
/// expression that is not closed.
pub open spec fn parse_tokens(s: Seq<char>, variables: bool) -> Result<Seq<SegmentView>, int>
    decreases s.len(),
{
    if s.len() == 0 {
        Ok(Seq::empty())
    } else {
        match next_token(s, variables) {
            Some((segment, n)) if 0 < n <= s.len() => prepend(
                seq![segment],
                n,
                parse_tokens(s.skip(n), variables),
            ),
            _ => Err(0),
        }
    }
}

/// Puts `before`, which took up `offset` characters, in front of what the rest
/// of the input gave.
pub open spec fn prepend(before: Seq<SegmentView>, offset: int, rest: Result<Seq<SegmentView>, int>)
    -> Result<Seq<SegmentView>, int> {
    match rest {
        Ok(segments) => Ok(before + segments),
        Err(at) => Err(offset + at),
    }
}

/// What a template parses to. The empty template is one empty static segment.
pub open spec fn parse_spec(s: Seq<char>, variables: bool) -> Result<Seq<SegmentView>, int> {
    if s.len() == 0 {
        Ok(seq![SegmentView::Static(Seq::empty())])
    } else {
        parse_tokens(s, variables)
    }
}

/// A closing delimiter that is found lies within the input, and it is the
/// first one: none starts before it.
pub proof fn lemma_find_close(s: Seq<char>)
    ensures
        match find_close(s) {
            Some(k) => 0 <= k && k + 2 <= s.len() && s[k] == '}' && s[k + 1] == '}'
                && forall|j: int| 0 <= j < k ==> !(s[j] == '}' && #[trigger] s[j + 1] == '}'),
            None => forall|j: int| 0 <= j && j + 1 < s.len() ==> !(s[j] == '}' && #[trigger] s[j + 1] == '}'),
        },
    decreases s.len(),
{
    if s.len() >= 2 && !closes_command(s) {
        let t = s.skip(1);
        lemma_find_close(t);
        match find_close(t) {
            Some(k) => {
                assert forall|j: int| 0 <= j < k + 1 implies !(s[j] == '}' && #[trigger] s[j + 1]
                    == '}') by {
                    if j > 0 {
                        assert(t[j - 1] == s[j]);
                        assert(t[j - 1 + 1] == s[j + 1]);
                    }
                }
            },
            None => {
                assert forall|j: int| 0 <= j && j + 1 < s.len() implies !(s[j] == '}'
                    && #[trigger] s[j + 1] == '}') by {
                    if j > 0 {
                        assert(t[j - 1] == s[j]);
                        assert(t[j - 1 + 1] == s[j + 1]);
                    }
                }
            },
        }
    }
}

/// A name ends at the first whitespace, or with the input.
pub proof fn lemma_name_len(s: Seq<char>)
    ensures
        0 <= name_len(s) <= s.len(),
        forall|j: int| 0 <= j < name_len(s) ==> !is_whitespace(#[trigger] s[j]),
        name_len(s) < s.len() ==> is_whitespace(s[name_len(s)]),
    decreases s.len(),
{
    if !(s.len() == 0 || is_whitespace(s[0])) {
        let t = s.skip(1);
        lemma_name_len(t);
        assert forall|j: int| 0 <= j < name_len(s) implies !is_whitespace(#[trigger] s[j]) by {
            if j > 0 {
                assert(t[j - 1] == s[j]);
            }
        }
        if name_len(s) < s.len() {
            assert(t[name_len(t)] == s[name_len(s)]);
        }
    }
}

/// Plain text ends at the first hash or opening delimiter, or with the input.
pub proof fn lemma_plain_len(s: Seq<char>)
    ensures
        0 <= plain_len(s) <= s.len(),
        forall|j: int| 0 <= j < plain_len(s) ==> #[trigger] s[j] != '#' && !opens_command(s.skip(j)),
        plain_len(s) < s.len() ==> s[plain_len(s)] == '#' || opens_command(s.skip(plain_len(s))),
    decreases s.len(),
{
    if !(s.len() == 0 || s[0] == '#' || opens_command(s)) {
        let t = s.skip(1);
        lemma_plain_len(t);
        assert forall|j: int| 0 <= j < plain_len(s) implies #[trigger] s[j] != '#'
            && !opens_command(s.skip(j)) by {
            if j > 0 {
                assert(t[j - 1] == s[j]);
                assert(t.skip(j - 1) =~= s.skip(j));
            } else {
                assert(s.skip(0) =~= s);
            }
        }
        if plain_len(s) < s.len() {
            assert(t[plain_len(t)] == s[plain_len(s)]);
            assert(t.skip(plain_len(t)) =~= s.skip(plain_len(s)));
        }
    } else if s.len() > 0 {
        assert(s.skip(0) =~= s);
    }
}

/// Every segment takes up at least one character of the input and never more
/// than is left, so parsing always moves forward.
pub proof fn lemma_token_progress(s: Seq<char>, variables: bool)
    requires
        s.len() > 0,
    ensures
        match next_token(s, variables) {
            Some((_, n)) => 0 < n <= s.len(),
            None => opens_command(s),
        },
{
    if opens_command(s) {
        lemma_find_close(s.skip(2));
    } else if is_escape(s) {
    } else if variables && opens_variable(s) {
        lemma_name_len(s.skip(1));
    } else {
        lemma_plain_len(s.skip(1));
    }
}

/// The segments written back in template syntax, one after the other.
pub open spec fn written_all(segments: Seq<SegmentView>) -> Seq<char> {
    join(Seq::new(segments.len(), |i: int| segments[i].written()))
}

/// No escape is read while `s` is parsed: none of its segments starts with a
/// doubled hash.
pub open spec fn escape_free(s: Seq<char>, variables: bool) -> bool
    decreases s.len(),
{
    if s.len() == 0 {
        true
    } else if is_escape(s) {
        false
    } else {
        match next_token(s, variables) {
            Some((_, n)) if 0 < n <= s.len() => escape_free(s.skip(n), variables),
            _ => true,
        }
    }
}

/// No two hashes stand side by side in `s`.
pub open spec fn no_double_hash(s: Seq<char>) -> bool {
    forall|j: int| 0 <= j && j + 1 < s.len() ==> !(s[j] == '#' && #[trigger] s[j + 1] == '#')
}

/// Parsing loses nothing and keeps the order: where no escape is read, the
/// segments written back one after the other give the template itself. (An
/// escape is two characters of the template and one of its segment.)
pub proof fn lemma_written_back(s: Seq<char>, variables: bool)
    requires
        escape_free(s, variables),
        parse_tokens(s, variables) is Ok,
    ensures
        written_all(parse_tokens(s, variables)->Ok_0) == s,
    decreases s.len(),
{
    if s.len() == 0 {
        assert(written_all(Seq::empty()) =~= s);
    } else {
        lemma_token_progress(s, variables);
        let (segment, n) = next_token(s, variables)->0;
        let rest = s.skip(n);
        lemma_written_back(rest, variables);
        let tail = parse_tokens(rest, variables)->Ok_0;
        assert(segment.written() =~= s.subrange(0, n)) by {
            if opens_command(s) {
                lemma_find_close(s.skip(2));
            }
        }
        let head = seq![segment];
        let all = head + tail;
        let texts = Seq::new(all.len(), |i: int| all[i].written());
        let head_texts = seq![segment.written()];
        let tail_texts = Seq::new(tail.len(), |i: int| tail[i].written());
        assert(texts =~= head_texts + tail_texts);
        lemma_join_concat(head_texts, tail_texts);
        lemma_join_one(segment.written());
        assert(s.subrange(0, n) + rest =~= s);
    }
}

/// A template in which no two hashes stand side by side holds no escape.
pub proof fn lemma_no_double_hash(s: Seq<char>, variables: bool)
    requires
        no_double_hash(s),
    ensures
        escape_free(s, variables),
    decreases s.len(),
{
    if s.len() > 0 {
        if is_escape(s) {
            assert(s[0int + 1] == '#');
        }
        lemma_token_progress(s, variables);
        match next_token(s, variables) {
            Some((_, n)) => {
                let rest = s.skip(n);
                assert forall|j: int| 0 <= j && j + 1 < rest.len() implies !(rest[j] == '#'
                    && #[trigger] rest[j + 1] == '#') by {
                    assert(s[j + n + 1] == rest[j + 1]);
                }
                lemma_no_double_hash(rest, variables);
            },
            None => {},
        }
    }
}

/// The escape: a doubled hash is one static segment holding a single hash, and
/// what follows it is parsed as if it stood alone.
pub proof fn lemma_escape(rest: Seq<char>, variables: bool)
    ensures
        parse_tokens(seq!['#', '#'] + rest, variables) == prepend(
            seq![SegmentView::Static(seq!['#'])],
            2,
            parse_tokens(rest, variables),
        ),
        rest.len() > 0 ==> parse_spec(seq!['#', '#'] + rest, variables) == prepend(
            seq![SegmentView::Static(seq!['#'])],
            2,
            parse_spec(rest, variables),
        ),
        rest.len() == 0 ==> parse_spec(seq!['#', '#'] + rest, variables) == Ok::<
            Seq<SegmentView>,
            int,
        >(seq![SegmentView::Static(seq!['#'])]),
{
    let s = seq!['#', '#'] + rest;
    assert(is_escape(s));
    assert(s.skip(2) =~= rest);
    if rest.len() == 0 {
        assert(seq![SegmentView::Static(seq!['#'])] + Seq::<SegmentView>::empty()
            =~= seq![SegmentView::Static(seq!['#'])]);
    }
}

/// A closing delimiter at `k` with none before it is the one that is found.
pub proof fn lemma_first_close(s: Seq<char>, k: int)
    requires
        0 <= k && k + 1 < s.len(),
        s[k] == '}' && s[k + 1] == '}',
        forall|j: int| 0 <= j < k ==> !(s[j] == '}' && #[trigger] s[j + 1] == '}'),
    ensures
        find_close(s) == Some(k),
{
    lemma_find_close(s);
    match find_close(s) {
        Some(found) => {
            if found < k {
                assert(s[found + 1] == '}');
            }
        },
        None => {
            assert(s[k + 1] == '}');
        },
    }
}

/// A command expression is opaque: whatever stands between its delimiters,
/// hashes included, is its text and starts no other segment. What follows the
/// closing delimiter is parsed as if it stood alone. The text is any that
/// holds no closing delimiter and does not end in a closing brace.
pub proof fn lemma_command_opaque(body: Seq<char>, rest: Seq<char>, variables: bool)
    requires
        forall|j: int| 0 <= j && j + 1 < body.len() ==> !(body[j] == '}' && #[trigger] body[j + 1] == '}'),
        body.len() > 0 ==> body.last() != '}',
    ensures
        parse_tokens(seq!['{', '{'] + body + seq!['}', '}'] + rest, variables) == prepend(
            seq![SegmentView::Command(body)],
            body.len() as int + 4,
            parse_tokens(rest, variables),
        ),
{
    let s = seq!['{', '{'] + body + seq!['}', '}'] + rest;
    let closed = body + seq!['}', '}'];
    let inner = s.skip(2);
    let k = body.len() as int;
    assert(opens_command(s));
    assert(inner =~= closed + rest);
    assert forall|j: int| 0 <= j < k implies !(inner[j] == '}' && #[trigger] inner[j + 1] == '}') by {
        assert(inner[j] == body[j]);
        if j + 1 < k {
            assert(inner[j + 1] == body[j + 1]);
        }
    }
    lemma_first_close(inner, k);
    assert(s.subrange(2, 2 + k) =~= body);
    assert(s.skip(k + 4) =~= rest);
}

/// A template that fails to parse fails at an opening delimiter after which no
/// closing delimiter follows.
pub proof fn lemma_error_position(s: Seq<char>, variables: bool)
    requires
        parse_tokens(s, variables) is Err,
    ensures
        ({
            let at = parse_tokens(s, variables)->Err_0;
            &&& 0 <= at < s.len()
            &&& opens_command(s.skip(at))
            &&& find_close(s.skip(at + 2)) is None
        }),
    decreases s.len(),
{
    if s.len() > 0 {
        lemma_token_progress(s, variables);
        match next_token(s, variables) {
            Some((_, n)) => {
                let rest = s.skip(n);
                lemma_error_position(rest, variables);
                let at = parse_tokens(rest, variables)->Err_0;
                assert(rest.skip(at) =~= s.skip(n + at));
                assert(rest.skip(at + 2) =~= s.skip(n + at + 2));
            },
            None => {
                assert(s.skip(0) =~= s);
            },
        }
    }
}

/// A template without an opening delimiter always parses.
pub proof fn lemma_no_command_parses(s: Seq<char>, variables: bool)
    requires
        forall|j: int| 0 <= j && j + 1 < s.len() ==> !(s[j] == '{' && #[trigger] s[j + 1] == '{'),
    ensures
        parse_spec(s, variables) is Ok,
{
    if parse_tokens(s, variables) is Err {
        lemma_error_position(s, variables);
        let at = parse_tokens(s, variables)->Err_0;
        assert(s.skip(at)[0] == s[at]);
        assert(s.skip(at)[1] == s[at + 1]);
    }
}

/// A template without a hash and without an opening delimiter is one static
/// segment: the template itself.
pub proof fn lemma_plain_template(s: Seq<char>, variables: bool)
    requires
        forall|j: int| 0 <= j < s.len() ==> #[trigger] s[j] != '#',
        forall|j: int| 0 <= j && j + 1 < s.len() ==> !(s[j] == '{' && #[trigger] s[j + 1] == '{'),
    ensures
        parse_spec(s, variables) == Ok::<Seq<SegmentView>, int>(seq![SegmentView::Static(s)]),
{
    if s.len() > 0 {
        let t = s.skip(1);
        lemma_plain_len(t);
        let p = plain_len(t);
        if p < t.len() {
            assert(t[p] == s[p + 1]);
            assert(t.skip(p)[0] == s[p + 1]);
            if t.skip(p).len() >= 2 {
                assert(t.skip(p)[1] == s[p + 1 + 1]);
            }
        }
        assert(s.len() >= 2 ==> s[0int + 1] != '{' || s[0] != '{');
        assert(s[0] != '#');
        assert(p == t.len());
        assert(s.subrange(0, 1 + p) =~= s);
        assert(s.skip(1 + p).len() == 0);
        assert(parse_tokens(s.skip(1 + p), variables) == Ok::<Seq<SegmentView>, int>(Seq::empty()));
        assert(seq![SegmentView::Static(s)] + Seq::<SegmentView>::empty() =~= seq![
            SegmentView::Static(s),
        ]);
    } else {
        assert(s =~= Seq::<char>::empty());
    }
}

} // verus!
