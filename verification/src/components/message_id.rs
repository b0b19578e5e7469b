//! Message identifiers: `id-left "@" id-right`, written between `<` and
//! `>`.

use vstd::prelude::*;
use vstd::string::StrSliceExecFns;
use vstd::utf8::is_ascii_chars;
use vec1::{Size0Error, Vec1};
use crate::components::email::{first_at, first_index_of, lemma_first_index_of};
use crate::data::{Input, SimpleItem};
use crate::encoder::{
    encode_each, encodes_alike, lemma_seq_encodes_alike, mark, seq_failure, seq_pieces,
    text_pieces, EncodableInHeader, EncodingWriter, Piece, Separator,
};
use crate::error::{ComponentCreationError, ComponentError, EncodingError, EncodingFailure};
use crate::grammar::{
    dot_atom_char_ok, is_atext, is_dtext, spec_is_atext, spec_is_dot_atom_text, spec_is_dtext,
};
use crate::mail_type::MailType;
use crate::text::chars_of;

verus! {

/// How much input a scanner would need to go on.
#[derive(Debug, Clone, Copy, PartialEq, Eq)]
pub enum Needed {
    /// More, and it is not known how much.
    Unknown,
    /// Input of at least this many bytes.
    Size(usize),
}

/// What a scanner made of the start of its input.
#[derive(Debug, Clone, Copy, PartialEq, Eq)]
pub enum IResult<'a, O> {
    /// The scanner matched: the input that is left, and what was matched.
    Done(&'a str, O),
    /// The input does not start with what the scanner looks for.
    Error,
    /// The input ended where the scanner needs more to decide.
    Incomplete(Needed),
}

/// atext in the widest sense: any non-ASCII character counts.
pub open spec fn atext(ch: char) -> bool {
    spec_is_atext(ch, MailType::Internationalized)
}

/// dtext in the widest sense.
pub open spec fn dtext(ch: char) -> bool {
    spec_is_dtext(ch, MailType::Internationalized)
}

/// dot-atom-text in the widest sense.
pub open spec fn dot_atom(s: Seq<char>) -> bool {
    spec_is_dot_atom_text(s, MailType::Internationalized)
}

/// no-fold-literal: dtext between `[` and `]`, with no white space.
pub open spec fn spec_no_fold_literal(s: Seq<char>) -> bool {
    &&& s.len() >= 2
    &&& s[0] == '['
    &&& s[s.len() - 1] == ']'
    &&& forall|i: int| 0 < i < s.len() - 1 ==> dtext(#[trigger] s[i])
}

/// The right side of a message id.
pub open spec fn spec_id_right(s: Seq<char>) -> bool {
    spec_no_fold_literal(s) || dot_atom(s)
}

/// A message id is dot-atom-text, `@`, and dot-atom-text or a
/// no-fold-literal, with nothing before or after.
pub open spec fn valid_message_id(s: Seq<char>) -> bool {
    match first_index_of(s, '@') {
        Some(at) => dot_atom(s.subrange(0, at)) && spec_id_right(
            s.subrange(at + 1, s.len() as int),
        ),
        None => false,
    }
}

/// Whether something that is neither dtext nor `]` stands in `s` behind
/// its first character, with nothing but dtext between the two.
pub open spec fn literal_breaks(s: Seq<char>) -> bool {
    exists|k: int|
        0 < k < s.len() && !dtext(s[k]) && s[k] != ']' && #[trigger] dtext_between(s, k)
}

/// All of `s` after its first character and before `k` is dtext.
pub open spec fn dtext_between(s: Seq<char>, k: int) -> bool {
    forall|j: int| 0 < j < k ==> dtext(#[trigger] s[j])
}

/// Where the scanner of dot-atom-text stops: at the end, or before a
/// character that cannot go on the match. A dot goes on only with atext
/// behind it.
pub open spec fn dot_atom_stops(rest: Seq<char>) -> bool {
    rest.len() == 0 || (!atext(rest[0]) && (rest[0] == '.' ==> rest.len() >= 2 && !atext(rest[1])))
}

/// The scanner of dot-atom-text cannot start: the input starts with
/// something else than atext.
pub open spec fn dot_atom_error(s: Seq<char>) -> bool {
    s.len() > 0 && !atext(s[0])
}

/// The scanner of dot-atom-text cannot decide: the input is empty, or it
/// ends in the dot behind a match.
pub open spec fn dot_atom_incomplete(s: Seq<char>) -> bool {
    s.len() == 0 || (s.last() == '.' && dot_atom(s.drop_last()))
}

/// The scanner of dot-atom-text matches `matched` and leaves `rest`.
pub open spec fn dot_atom_done(matched: Seq<char>, rest: Seq<char>) -> bool {
    dot_atom(matched) && dot_atom_stops(rest)
}

/// The scanner of the right side cannot start: the input starts neither
/// with atext nor with a no-fold-literal up to its `]`.
pub open spec fn right_error(s: Seq<char>) -> bool {
    s.len() > 0 && !atext(s[0]) && (s[0] == '[' ==> literal_breaks(s))
}

/// The scanner of the right side cannot decide: the input is empty, or
/// it is a no-fold-literal but for the `]`, or it ends in the dot behind
/// a match.
pub open spec fn right_incomplete(s: Seq<char>) -> bool {
    s.len() == 0 || (s[0] == '[' && forall|j: int| 0 < j < s.len() ==> dtext(#[trigger] s[j])) || (
    s.last() == '.' && dot_atom(s.drop_last()))
}

/// The scanner of the right side matches `matched` and leaves `rest`: a
/// no-fold-literal where the input starts with `[`, dot-atom-text else.
pub open spec fn right_done(matched: Seq<char>, rest: Seq<char>) -> bool {
    if matched.len() > 0 && matched[0] == '[' {
        spec_no_fold_literal(matched)
    } else {
        dot_atom_done(matched, rest)
    }
}

/// `left`, then `rest`, make up `s`.
pub open spec fn splits(s: Seq<char>, left: Seq<char>, rest: Seq<char>) -> bool {
    left + rest == s
}

/// The scanner of message ids cannot go on: the input does not start
/// with atext, or no `@` follows the left side, or no right side the `@`.
pub open spec fn id_error(s: Seq<char>) -> bool {
    dot_atom_error(s) || exists|left: Seq<char>, rest: Seq<char>| #[trigger]
        splits(s, left, rest) && dot_atom_done(left, rest) && rest.len() > 0 && (rest[0] != '@'
            || right_error(rest.skip(1)))
}

/// The scanner of message ids cannot decide: the input ends where the
/// left side, the `@` or the right side could still go on.
pub open spec fn id_incomplete(s: Seq<char>) -> bool {
    dot_atom_incomplete(s) || exists|left: Seq<char>, rest: Seq<char>| #[trigger]
        splits(s, left, rest) && dot_atom_done(left, rest) && (rest.len() == 0 || (rest[0] == '@'
            && right_incomplete(rest.skip(1))))
}

/// One more than the number of bytes of `s`, if that is a `usize`.
pub open spec fn one_more_than(s: &str) -> Needed {
    if s.len() + 1 <= usize::MAX {
        Needed::Size((s.len() + 1) as usize)
    } else {
        Needed::Unknown
    }
}

fn needs_one_more(input: &str) -> (r: Needed)
    ensures
        r == one_more_than(input),
{
    match input.len().checked_add(1) {
        Some(size) => Needed::Size(size),
        None => Needed::Unknown,
    }
}

proof fn lemma_dot_atom_extend(s: Seq<char>, end: int, step: int)
    requires
        1 <= end,
        end + step <= s.len(),
        dot_atom(s.take(end)),
        s[end - 1] != '.',
        step == 1 || step == 2,
        step == 1 ==> atext(s[end]),
        step == 2 ==> s[end] == '.' && atext(s[end + 1]),
    ensures
        dot_atom(s.take(end + step)),
        s[end + step - 1] != '.',
{
    let p = s.take(end);
    let q = s.take(end + step);
    assert forall|i: int| 0 <= i < q.len() implies #[trigger] dot_atom_char_ok(
        q,
        i,
        MailType::Internationalized,
    ) by {
        if i < end {
            assert(dot_atom_char_ok(p, i, MailType::Internationalized));
            assert(q[i] == p[i]);
            if i > 0 {
                assert(q[i - 1] == p[i - 1]);
            }
        }
    }
}

/// Matches the longest dot-atom-text at the start of `input`.
///
/// The input must start with atext. The match ends before the first
/// character that cannot go on with it. An input that is empty, or that
/// ends in the dot after a match, is incomplete: more input could still
/// decide either way.
pub fn dot_atom_text<'a>(input: &'a str) -> (r: IResult<'a, &'a str>)
    ensures
        match r {
            IResult::Done(rest, matched) => matched@ + rest@ == input@ && dot_atom_done(
                matched@,
                rest@,
            ),
            IResult::Error => dot_atom_error(input@),
            IResult::Incomplete(n) => n == one_more_than(input) && dot_atom_incomplete(input@),
        },
{
    let chars = chars_of(input);
    let n: usize = chars.len();
    if n == 0 {
        return IResult::Incomplete(needs_one_more(input));
    }
    if !is_atext(chars[0], MailType::Internationalized) {
        return IResult::Error;
    }
    let mut end: usize = 1;
    let mut stopped = false;
    proof {
        assert(dot_atom_char_ok(chars@.take(1), 0, MailType::Internationalized));
    }
    while end < n && !stopped
        invariant
            chars@ == input@,
            n == chars.len(),
            1 <= end <= n,
            dot_atom(chars@.take(end as int)),
            chars@[end - 1] != '.',
            stopped ==> end < n && dot_atom_stops(chars@.subrange(end as int, n as int)),
        decreases n - end + (if stopped { 0int } else { 1int }),
    {
        let ch = chars[end];
        if is_atext(ch, MailType::Internationalized) {
            proof {
                lemma_dot_atom_extend(chars@, end as int, 1);
            }
            end = end + 1;
        } else if ch == '.' {
            if end + 1 == n {
                proof {
                    assert(input@.drop_last() =~= chars@.take(end as int));
                }
                return IResult::Incomplete(needs_one_more(input));
            }
            if is_atext(chars[end + 1], MailType::Internationalized) {
                proof {
                    lemma_dot_atom_extend(chars@, end as int, 2);
                }
                end = end + 2;
            } else {
                stopped = true;
            }
        } else {
            stopped = true;
        }
    }
    let matched = input.substring_char(0, end);
    let rest = input.substring_char(end, n);
    proof {
        assert(matched@ =~= chars@.take(end as int));
        assert(matched@ + rest@ =~= input@);
    }
    IResult::Done(rest, matched)
}

/// Matches a no-fold-literal at the start of `input`: `[`, all the dtext
/// that follows, and `]`.
pub fn no_fold_literal<'a>(input: &'a str) -> (r: IResult<'a, &'a str>)
    ensures
        match r {
            IResult::Done(rest, matched) => matched@ + rest@ == input@ && spec_no_fold_literal(
                matched@,
            ),
            IResult::Error => input@.len() > 0 && (input@[0] != '[' || literal_breaks(input@)),
            IResult::Incomplete(n) => n == one_more_than(input) && (input@.len() == 0 || (input@[0]
                == '[' && forall|j: int| 0 < j < input@.len() ==> dtext(#[trigger] input@[j]))),
        },
{
    let chars = chars_of(input);
    let n: usize = chars.len();
    if n == 0 {
        return IResult::Incomplete(needs_one_more(input));
    }
    if chars[0] != '[' {
        return IResult::Error;
    }
    let mut i: usize = 1;
    while i < n && is_dtext(chars[i], MailType::Internationalized)
        invariant
            chars@ == input@,
            n == chars.len(),
            1 <= i <= n,
            forall|j: int| 0 < j < i ==> dtext(#[trigger] chars@[j]),
        decreases n - i,
    {
        i = i + 1;
    }
    if i == n {
        return IResult::Incomplete(needs_one_more(input));
    }
    if chars[i] != ']' {
        assert(dtext_between(input@, i as int));
        return IResult::Error;
    }
    let matched = input.substring_char(0, i + 1);
    let rest = input.substring_char(i + 1, n);
    proof {
        assert(matched@ + rest@ =~= input@);
        assert forall|j: int| 0 < j < matched@.len() - 1 implies dtext(#[trigger] matched@[j]) by {
            assert(matched@[j] == chars@[j]);
        }
    }
    IResult::Done(rest, matched)
}

/// Matches the left side of a message id: dot-atom-text.
pub fn id_left<'a>(input: &'a str) -> (r: IResult<'a, &'a str>)
    ensures
        match r {
            IResult::Done(rest, matched) => matched@ + rest@ == input@ && dot_atom_done(
                matched@,
                rest@,
            ),
            IResult::Error => dot_atom_error(input@),
            IResult::Incomplete(n) => n == one_more_than(input) && dot_atom_incomplete(input@),
        },
{
    dot_atom_text(input)
}

/// Matches the right side of a message id: a no-fold-literal, or where
/// the input does not start with one, dot-atom-text.
pub fn id_right<'a>(input: &'a str) -> (r: IResult<'a, &'a str>)
    ensures
        match r {
            IResult::Done(rest, matched) => matched@ + rest@ == input@ && right_done(
                matched@,
                rest@,
            ),
            IResult::Error => right_error(input@),
            IResult::Incomplete(n) => n == one_more_than(input) && right_incomplete(input@),
        },
{
    match no_fold_literal(input) {
        IResult::Error => {
            let r = dot_atom_text(input);
            proof {
                if let IResult::Done(rest, matched) = r {
                    assert(dot_atom_char_ok(matched@, 0, MailType::Internationalized));
                }
            }
            r
        },
        other => other,
    }
}

/// Matches a message id at the start of `input`: left side, `@`, right
/// side. What is matched is handed out as the two sides.
///
/// The input is a message id exactly if the result is `Done` with no
/// input left.
pub fn parse_message_id<'a>(input: &'a str) -> (r: IResult<'a, (&'a str, &'a str)>)
    ensures
        match r {
            IResult::Done(rest, (left, right)) => left@ + seq!['@'] + right@ + rest@ == input@
                && dot_atom(left@) && right_done(right@, rest@),
            IResult::Error => id_error(input@),
            IResult::Incomplete(n) => n == Needed::Unknown && id_incomplete(input@),
        },
        valid_message_id(input@) == (r matches IResult::Done(rest, _) && rest@.len() == 0),
{
    let chars = chars_of(input);
    let n: usize = chars.len();
    match id_left(input) {
        IResult::Error => {
            proof {
                lemma_valid_starts_with_atext(input@);
                assert(!valid_message_id(input@));
            }
            IResult::Error
        },
        IResult::Incomplete(_) => {
            proof {
                lemma_valid_starts_with_atext(input@);
                if input@.len() > 0 {
                    lemma_dot_atom_has_no_at(input@.drop_last());
                    lemma_no_at_with_dot(input@);
                }
                assert(!valid_message_id(input@));
            }
            IResult::Incomplete(Needed::Unknown)
        },
        IResult::Done(rest, left) => {
            let rest_chars = chars_of(rest);
            let at: usize = left.unicode_len();
            proof {
                lemma_dot_atom_has_no_at(left@);
                assert forall|j: int| 0 <= j < at implies #[trigger] input@[j] != '@' by {
                    assert(input@[j] == left@[j]);
                }
            }
            if rest_chars.len() == 0 {
                proof {
                    assert(input@ =~= left@);
                    assert(first_index_of(input@, '@').is_none()) by {
                        if first_index_of(input@, '@').is_some() {
                            let k = choose|k: int|
                                0 <= k < input@.len() && input@[k] == '@' && first_at(
                                    input@,
                                    '@',
                                    k,
                                );
                            assert(input@[k] != '@');
                        }
                    }
                    assert(!valid_message_id(input@));
                    assert(splits(input@, left@, rest@));
                }
                return IResult::Incomplete(Needed::Unknown);
            }
            proof {
                assert(input@[at as int] == rest@[0]);
                assert(splits(input@, left@, rest@));
            }
            if rest_chars[0] != '@' {
                proof {
                    lemma_left_must_end_at_at(input@, left@, rest@);
                    assert(!valid_message_id(input@));
                }
                return IResult::Error;
            }
            proof {
                assert(first_at(input@, '@', at as int));
                lemma_first_index_of(input@, '@', at as int);
                assert(input@.subrange(0, at as int) =~= left@);
            }
            let after = rest.substring_char(1, rest_chars.len());
            proof {
                assert(after@ =~= input@.subrange(at + 1, input@.len() as int));
                assert(rest@ =~= seq!['@'] + after@);
                assert(after@ =~= rest@.skip(1));
            }
            match id_right(after) {
                IResult::Error => {
                    proof {
                        if spec_id_right(after@) {
                            if dot_atom(after@) {
                                assert(dot_atom_char_ok(after@, 0, MailType::Internationalized));
                            }
                        }
                        if spec_no_fold_literal(after@) {
                            let k = choose|k: int|
                                0 < k < after@.len() && !dtext(after@[k]) && after@[k] != ']'
                                    && #[trigger] dtext_between(after@, k);
                            if k < after@.len() - 1 {
                                assert(dtext(after@[k]));
                            }
                        }
                        assert(!spec_id_right(after@));
                        assert(!valid_message_id(input@));
                    }
                    IResult::Error
                },
                IResult::Incomplete(_) => {
                    proof {
                        if spec_id_right(after@) {
                            if after@.len() > 0 && after@[0] == '[' {
                                if dot_atom(after@) {
                                    assert(dot_atom_char_ok(
                                        after@,
                                        0,
                                        MailType::Internationalized,
                                    ));
                                }
                                if spec_no_fold_literal(after@) {
                                    assert(dtext(after@[after@.len() - 1]));
                                }
                            } else if after@.len() > 0 {
                                assert(after@.last() == '.');
                                if dot_atom(after@) {
                                    assert(dot_atom_char_ok(
                                        after@,
                                        after@.len() - 1,
                                        MailType::Internationalized,
                                    ));
                                }
                            }
                        }
                    }
                    proof {
                        assert(!spec_id_right(after@));
                        assert(!valid_message_id(input@));
                    }
                    IResult::Incomplete(Needed::Unknown)
                },
                IResult::Done(rest2, right) => {
                    proof {
                        assert(left@ + seq!['@'] + right@ + rest2@ =~= input@);
                        if right@.len() > 0 && right@[0] != '[' {
                            assert(dot_atom(right@));
                        }
                        if rest2@.len() == 0 {
                            assert(right@ =~= after@);
                            assert(spec_id_right(after@));
                            assert(valid_message_id(input@));
                        } else {
                            lemma_right_is_all(after@, right@, rest2@);
                            assert(!valid_message_id(input@));
                        }
                    }
                    IResult::Done(rest2, (left, right))
                },
            }
        },
    }
}

/// What the scanner of dot-atom-text makes of an input is one thing only:
/// it cannot match and fail to start, nor match and fail to decide, and
/// what it matches is one match only.
pub proof fn lemma_dot_atom_scan_is_decided(
    s: Seq<char>,
    matched: Seq<char>,
    rest: Seq<char>,
    other_matched: Seq<char>,
    other_rest: Seq<char>,
)
    requires
        splits(s, matched, rest),
        dot_atom_done(matched, rest),
    ensures
        !dot_atom_error(s),
        !dot_atom_incomplete(s),
        splits(s, other_matched, other_rest) && dot_atom_done(other_matched, other_rest) ==> matched
            == other_matched && rest == other_rest,
{
    let mt = MailType::Internationalized;
    assert(dot_atom_char_ok(matched, 0, mt));
    assert(s[0] == matched[0]);
    let k = matched.len() as int;
    assert(s =~= matched + rest);
    if dot_atom_incomplete(s) {
        let shorter = s.drop_last();
        let n = s.len() as int;
        if k == n {
            assert(matched[n - 1] == s[n - 1]);
            assert(dot_atom_char_ok(matched, n - 1, mt));
        } else if k == n - 1 {
            assert(rest[0] == s[k]);
        } else {
            assert(rest[0] == s[k]);
            assert(shorter[k] == s[k]);
            assert(dot_atom_char_ok(shorter, k, mt));
            assert(rest[1] == s[k + 1]);
            if k + 1 < n - 1 {
                assert(shorter[k + 1] == s[k + 1]);
                assert(dot_atom_char_ok(shorter, k + 1, mt));
            }
        }
    }
    if splits(s, other_matched, other_rest) && dot_atom_done(other_matched, other_rest) {
        let j = other_matched.len() as int;
        assert(s =~= other_matched + other_rest);
        if k < j {
            assert(other_matched =~= s.take(j));
            lemma_shorter_match_goes_on(s, matched, rest, other_matched);
        } else if j < k {
            assert(matched =~= s.take(k));
            assert(dot_atom_char_ok(other_matched, 0, mt));
            lemma_shorter_match_goes_on(s, other_matched, other_rest, matched);
        } else {
            assert(matched =~= s.take(k));
            assert(other_matched =~= s.take(k));
            assert(rest =~= s.skip(k));
            assert(other_rest =~= s.skip(k));
        }
    }
}

/// A match of dot-atom-text behind which a longer one goes on has not
/// stopped.
proof fn lemma_shorter_match_goes_on(
    s: Seq<char>,
    matched: Seq<char>,
    rest: Seq<char>,
    longer: Seq<char>,
)
    requires
        matched + rest == s,
        dot_atom(longer),
        matched.len() < longer.len() <= s.len(),
        longer == s.take(longer.len() as int),
        matched.len() > 0,
    ensures
        !dot_atom_stops(rest),
{
    let mt = MailType::Internationalized;
    let k = matched.len() as int;
    assert(rest[0] == s[k]);
    assert(longer[k] == s[k]);
    assert(dot_atom_char_ok(longer, k, mt));
    if longer[k] == '.' {
        assert(rest[1] == s[k + 1]);
        assert(longer[k + 1] == s[k + 1]);
        assert(dot_atom_char_ok(longer, k + 1, mt));
    }
}

/// No `@` stands in dot-atom-text.
proof fn lemma_dot_atom_has_no_at(s: Seq<char>)
    requires
        dot_atom(s),
    ensures
        forall|j: int| 0 <= j < s.len() ==> #[trigger] s[j] != '@',
{
    assert forall|j: int| 0 <= j < s.len() implies #[trigger] s[j] != '@' by {
        assert(dot_atom_char_ok(s, j, MailType::Internationalized));
    }
}

/// A message id starts with atext.
proof fn lemma_valid_starts_with_atext(s: Seq<char>)
    ensures
        valid_message_id(s) ==> s.len() > 0 && atext(s[0]) && s.last() != '.',
{
    if valid_message_id(s) {
        let at = first_index_of(s, '@').unwrap();
        let left = s.subrange(0, at);
        let right = s.subrange(at + 1, s.len() as int);
        assert(dot_atom_char_ok(left, 0, MailType::Internationalized));
        assert(left[0] == s[0]);
        assert(right.last() == s.last());
        if dot_atom(right) {
            assert(dot_atom_char_ok(right, right.len() - 1, MailType::Internationalized));
        }
    }
}

/// A text made of dot-atom-text and a last dot holds no message id.
proof fn lemma_no_at_with_dot(s: Seq<char>)
    requires
        s.len() > 0,
        s.last() == '.',
    ensures
        !valid_message_id(s),
{
    lemma_valid_starts_with_atext(s);
}

/// If the scanner of dot-atom-text stopped before anything but `@`, the
/// text is no message id.
proof fn lemma_left_must_end_at_at(s: Seq<char>, left: Seq<char>, rest: Seq<char>)
    requires
        left + rest == s,
        dot_atom(left),
        dot_atom_stops(rest),
        rest.len() > 0,
        rest[0] != '@',
    ensures
        !valid_message_id(s),
{
    if valid_message_id(s) {
        let at = first_index_of(s, '@').unwrap();
        let l = s.subrange(0, at);
        lemma_dot_atom_has_no_at(left);
        assert(s[at] == '@');
        if at < left.len() {
            assert(s[at] == left[at]);
        }
        assert(at > left.len());
        let k = left.len() as int;
        assert(s[k] == rest[0]);
        assert(l[k] == s[k]);
        assert(dot_atom_char_ok(l, k, MailType::Internationalized));
        assert(rest[0] == '.');
        assert(s[k + 1] == rest[1]);
        if k + 1 < at {
            assert(l[k + 1] == s[k + 1]);
            assert(dot_atom_char_ok(l, k + 1, MailType::Internationalized));
            assert(l[k] == '.');
        }
    }
}

/// If the scanner of the right side left input over, the whole is no
/// right side.
proof fn lemma_right_is_all(s: Seq<char>, right: Seq<char>, rest: Seq<char>)
    requires
        right + rest == s,
        rest.len() > 0,
        if s[0] == '[' {
            spec_no_fold_literal(right)
        } else {
            dot_atom(right) && dot_atom_stops(rest)
        },
    ensures
        !spec_id_right(s),
{
    let k = right.len() as int;
    assert(s[k] == rest[0]);
    if s[0] == '[' {
        if dot_atom(s) {
            assert(dot_atom_char_ok(s, 0, MailType::Internationalized));
        }
        if spec_no_fold_literal(s) {
            assert(s[k - 1] == right[k - 1]);
            assert(dtext(s[k - 1]));
        }
    } else {
        if dot_atom(s) {
            assert(dot_atom_char_ok(s, k, MailType::Internationalized));
            if rest.len() >= 2 {
                assert(s[k + 1] == rest[1]);
                assert(dot_atom_char_ok(s, k + 1, MailType::Internationalized));
            }
        }
    }
}

/// The identifier of a message.
#[derive(Debug, PartialEq)]
pub struct MessageID {
    message_id: SimpleItem,
}

impl View for MessageID {
    type V = Seq<char>;

    closed spec fn view(&self) -> Seq<char> {
        self.message_id@
    }
}

impl Clone for MessageID {
    fn clone(&self) -> (r: MessageID)
        ensures
            r@ == self@,
            r.tagged_ascii() == self.tagged_ascii(),
    {
        proof {
            use_type_invariant(self);
        }
        MessageID { message_id: self.message_id.clone() }
    }
}

impl MessageID {
    /// The text is a message id, and carries the US-ASCII tag exactly if
    /// it is US-ASCII.
    #[verifier::type_invariant]
    spec fn inv(&self) -> bool {
        &&& valid_message_id(self.message_id@)
        &&& (self.message_id is Ascii) == is_ascii_chars(self.message_id@)
    }

    /// Whether the id is stored as known US-ASCII.
    pub closed spec fn tagged_ascii(&self) -> bool {
        self.message_id is Ascii
    }

    pub fn as_str(&self) -> (r: &str)
        ensures
            r@ == self@,
            valid_message_id(r@),
            self.tagged_ascii() == is_ascii_chars(r@),
    {
        proof {
            use_type_invariant(self);
        }
        self.message_id.as_str()
    }

    /// Makes a message id of `text`, if it is one.
    pub fn try_from(text: &str) -> (r: Result<MessageID, ComponentCreationError>)
        ensures
            match r {
                Ok(id) => valid_message_id(text@) && id@ == text@ && id.tagged_ascii()
                    == is_ascii_chars(text@),
                Err(e) => !valid_message_id(text@) && e.spec_component() == "MessageID"@
                    && e.spec_str_context() == Some(text@) && (
                e.spec_cause() matches Some(ComponentError::InvalidMessageId(t)) && t@ == text@),
            },
    {
        MessageID::from_input(Input::from_str(text))
    }

    /// Makes a message id of `input`, if it is one.
    pub fn from_input(input: Input) -> (r: Result<MessageID, ComponentCreationError>)
        ensures
            match r {
                Ok(id) => valid_message_id(input@) && id@ == input@ && id.tagged_ascii()
                    == is_ascii_chars(input@),
                Err(e) => !valid_message_id(input@) && e.spec_component() == "MessageID"@
                    && e.spec_str_context() == Some(input@) && (
                e.spec_cause() matches Some(ComponentError::InvalidMessageId(t)) && t@ == input@),
            },
    {
        let complete = match parse_message_id(input.as_str()) {
            IResult::Done(rest, _msg_id) => rest.unicode_len() == 0,
            _ => false,
        };
        if !complete {
            let cause = ComponentError::InvalidMessageId(input.as_str().to_owned());
            return Err(
                ComponentCreationError::from_parent(cause, "MessageID").with_str_context(
                    input.as_str(),
                ),
            );
        }
        Ok(MessageID { message_id: SimpleItem::from(input) })
    }
}

impl EncodableInHeader for MessageID {
    /// A mark, `<`, the id, `>`, a mark. An id that is not US-ASCII is
    /// written as it is into an internationalized mail; in any other mail
    /// nothing follows the `<`.
    open spec fn pieces(&self, mt: MailType) -> Seq<Piece> {
        if self.tagged_ascii() || mt.is_internationalized() {
            seq![mark(), Some('<')] + text_pieces(self@) + seq![Some('>'), mark()]
        } else {
            seq![mark(), Some('<')]
        }
    }

    open spec fn failure(&self, mt: MailType) -> Option<EncodingFailure> {
        if self.tagged_ascii() || mt.is_internationalized() {
            None
        } else {
            Some(EncodingFailure::Utf8NotAllowed)
        }
    }

    fn encode(&self, handle: &mut EncodingWriter) -> (r: Result<(), EncodingError>) {
        let ghost mt = handle.spec_mail_type();
        handle.mark_fws_pos();
        handle.write_char('<');
        assert(handle@ =~= old(handle)@ + seq![mark(), Some('<')]);
        match &self.message_id {
            SimpleItem::Ascii(ascii) => handle.write_str(ascii.as_str()),
            SimpleItem::Utf8(utf8) => handle.write_utf8(utf8.as_str())?,
        }
        handle.write_char('>');
        handle.mark_fws_pos();
        assert(final(handle)@ =~= old(handle)@ + self.pieces(mt));
        Ok(())
    }
}

/// The message ids that a `Vec1` of them holds, in order.
pub uninterp spec fn message_ids(list: Vec1<MessageID>) -> Seq<MessageID>;

/// `Vec1::try_from_vec` takes the vector over as it is, unless it is
/// empty: then it fails.
#[verifier::external_body]
fn message_ids_from_vec(ids: Vec<MessageID>) -> (r: Result<Vec1<MessageID>, Size0Error>)
    ensures
        match r {
            Ok(list) => ids@.len() > 0 && message_ids(list) == ids@,
            Err(_) => ids@.len() == 0,
        },
{
    Vec1::try_from_vec(ids)
}

/// `Vec1::as_vec` lends the vector inside, which is never empty.
#[verifier::external_body]
fn message_ids_as_vec(list: &Vec1<MessageID>) -> (r: &Vec<MessageID>)
    ensures
        r@ == message_ids(*list),
        r@.len() > 0,
{
    list.as_vec()
}

/// One or more message ids.
#[derive(Debug)]
pub struct MessageIDList(pub Vec1<MessageID>);

impl Clone for MessageIDList {
    fn clone(&self) -> (r: MessageIDList)
        ensures
            r@.len() == self@.len(),
            forall|i: int|
                0 <= i < self@.len() ==> (#[trigger] r@[i])@ == self@[i]@ && r@[i].tagged_ascii()
                    == self@[i].tagged_ascii(),
            encodes_alike(r, *self),
    {
        let ids = message_ids_as_vec(&self.0);
        let mut copies: Vec<MessageID> = Vec::new();
        let mut i: usize = 0;
        while i < ids.len()
            invariant
                0 <= i <= ids.len(),
                copies.len() == i,
                forall|j: int|
                    0 <= j < i ==> (#[trigger] copies@[j])@ == ids@[j]@ && copies@[j].tagged_ascii()
                        == ids@[j].tagged_ascii(),
            decreases ids.len() - i,
        {
            copies.push(ids[i].clone());
            i = i + 1;
        }
        let r = match message_ids_from_vec(copies) {
            Ok(list) => MessageIDList(list),
            Err(_) => vstd::pervasive::unreached(),
        };
        proof {
            assert forall|mt: MailType| #[trigger]
                r.pieces(mt) == self.pieces(mt) && r.failure(mt) == self.failure(mt) by {
                assert forall|j: int| 0 <= j < r@.len() implies encodes_alike(
                    #[trigger] r@[j],
                    self@[j],
                ) by {
                    assert(r@[j]@ == self@[j]@);
                }
                lemma_seq_encodes_alike(r@, self@, Seq::empty(), mt);
            }
            assert(encodes_alike(r, *self));
        }
        r
    }
}

impl View for MessageIDList {
    type V = Seq<MessageID>;

    open spec fn view(&self) -> Seq<MessageID> {
        message_ids(self.0)
    }
}

impl MessageIDList {
    /// A list of the given ids, of which there must be one at least.
    pub fn try_from_vec(ids: Vec<MessageID>) -> (r: Result<MessageIDList, ComponentError>)
        ensures
            match r {
                Ok(list) => ids@.len() > 0 && list@ == ids@,
                Err(e) => ids@.len() == 0 && e == ComponentError::MessageIDListSize0,
            },
    {
        match message_ids_from_vec(ids) {
            Ok(list) => Ok(MessageIDList(list)),
            Err(_) => Err(ComponentError::MessageIDListSize0),
        }
    }

    /// A list of the one id.
    pub fn from_single(id: MessageID) -> (r: MessageIDList)
        ensures
            r@ == seq![id],
    {
        let mut ids: Vec<MessageID> = Vec::new();
        ids.push(id);
        assert(ids@ =~= seq![id]);
        match message_ids_from_vec(ids) {
            Ok(list) => MessageIDList(list),
            Err(_) => vstd::pervasive::unreached(),
        }
    }

    /// How many ids the list holds: one at least.
    pub fn len(&self) -> (r: usize)
        ensures
            r == self@.len(),
            r > 0,
    {
        message_ids_as_vec(&self.0).len()
    }

    /// The ids, in order.
    pub fn as_vec(&self) -> (r: &Vec<MessageID>)
        ensures
            r@ == self@,
            r@.len() > 0,
    {
        message_ids_as_vec(&self.0)
    }
}

impl EncodableInHeader for MessageIDList {
    /// The ids one after the other, with nothing between them: each
    /// brings its own marks and stands between `<` and `>`.
    open spec fn pieces(&self, mt: MailType) -> Seq<Piece> {
        seq_pieces(self@, Seq::empty(), mt)
    }

    open spec fn failure(&self, mt: MailType) -> Option<EncodingFailure> {
        seq_failure(self@, mt)
    }

    fn encode(&self, handle: &mut EncodingWriter) -> (r: Result<(), EncodingError>) {
        encode_each(message_ids_as_vec(&self.0), Separator::Nothing, handle)
    }
}

} // verus!
