//! Splits free text into alternating runs of visible characters and of
//! white space, the places between which a header line may be folded.

use vstd::prelude::*;
use vstd::string::StrSliceExecFns;
use crate::error::ComponentError;
use crate::grammar::{is_vchar, is_ws, spec_is_vchar, spec_is_ws};
use crate::mail_type::MailType;
use crate::text::chars_of;

verus! {

/// One maximal run of a text.
#[derive(Copy, Clone, Debug, PartialEq, Eq)]
pub enum Partition<'a> {
    /// A run of white space: blanks, tabs, carriage returns, line feeds.
    SPACE(&'a str),
    /// A run of visible characters.
    VCHAR(&'a str),
}

impl<'a> Partition<'a> {
    /// The characters of the run.
    pub open spec fn text(&self) -> Seq<char> {
        match *self {
            Partition::SPACE(s) => s@,
            Partition::VCHAR(s) => s@,
        }
    }

    pub open spec fn spec_is_visible(&self) -> bool {
        *self is VCHAR
    }

    /// Whether this is a run of visible characters.
    #[verifier::when_used_as_spec(spec_is_visible)]
    pub fn is_visible(&self) -> (r: bool)
        ensures
            r == self.spec_is_visible(),
    {
        match self {
            Partition::VCHAR(_) => true,
            Partition::SPACE(_) => false,
        }
    }

    /// The run as text.
    pub fn as_str(&self) -> (r: &'a str)
        ensures
            r@ == self.text(),
    {
        match *self {
            Partition::SPACE(s) => s,
            Partition::VCHAR(s) => s,
        }
    }
}

/// A character that may stand between words: WSP, CR or LF.
pub open spec fn is_space_like(ch: char) -> bool {
    spec_is_ws(ch) || ch == '\r' || ch == '\n'
}

/// A visible character, in the widest sense (any non-ASCII character is
/// visible).
pub open spec fn is_visible(ch: char) -> bool {
    spec_is_vchar(ch, MailType::Internationalized)
}

/// A text can be partitioned if each of its characters is visible or
/// space-like.
pub open spec fn partitionable(s: Seq<char>) -> bool {
    forall|i: int| 0 <= i < s.len() ==> is_visible(#[trigger] s[i]) || is_space_like(s[i])
}

/// The runs put back together.
pub open spec fn concat_parts(parts: Seq<Partition>) -> Seq<char>
    decreases parts.len(),
{
    if parts.len() == 0 {
        Seq::empty()
    } else {
        concat_parts(parts.drop_last()) + parts.last().text()
    }
}

/// A run is not empty, and all its characters are of its kind.
pub open spec fn uniform_part(p: Partition) -> bool {
    &&& p.text().len() > 0
    &&& forall|j: int|
        0 <= j < p.text().len() ==> if p.spec_is_visible() {
            is_visible(#[trigger] p.text()[j])
        } else {
            is_space_like(p.text()[j])
        }
}

/// `parts` is the partition of `s`: the runs make up `s`, each is uniform,
/// and neighbours differ in kind, so that each run is maximal.
pub open spec fn is_partition_of(parts: Seq<Partition>, s: Seq<char>) -> bool {
    &&& concat_parts(parts) == s
    &&& forall|i: int| 0 <= i < parts.len() ==> uniform_part(#[trigger] parts[i])
    &&& forall|i: int|
        0 <= i < parts.len() - 1 ==> (#[trigger] parts[i]).spec_is_visible() != parts[i
            + 1].spec_is_visible()
}

proof fn lemma_concat_push(parts: Seq<Partition>, p: Partition)
    ensures
        concat_parts(parts.push(p)) == concat_parts(parts) + p.text(),
{
    assert(parts.push(p).drop_last() =~= parts);
}

/// Splits `text` into its maximal runs of visible and of space-like
/// characters, in order. The empty text has no runs. A text with a
/// character that is neither visible nor space-like is refused.
pub fn partition<'a>(text: &'a str) -> (r: Result<Vec<Partition<'a>>, ComponentError>)
    ensures
        match r {
            Ok(parts) => partitionable(text@) && is_partition_of(parts@, text@),
            Err(e) => !partitionable(text@) && (e matches ComponentError::NeedAtLastOneVCHAR(t)
                && t@ == text@),
        },
{
    let chars = chars_of(text);
    let n: usize = chars.len();
    let mut partitions: Vec<Partition<'a>> = Vec::new();
    if n == 0 {
        assert(text@ =~= Seq::<char>::empty());
        return Ok(partitions);
    }
    let mut current_visible = is_vchar(chars[0], MailType::Internationalized);
    let mut start_of_current: usize = 0;
    let mut idx: usize = 0;
    assert(text@.subrange(0, 0) =~= Seq::<char>::empty());
    while idx < n
        invariant
            chars@ == text@,
            n == chars.len(),
            n > 0,
            0 <= start_of_current <= idx <= n,
            idx > 0 ==> start_of_current < idx,
            idx == 0 ==> current_visible == is_visible(chars@[0]),
            concat_parts(partitions@) == text@.subrange(0, start_of_current as int),
            forall|i: int| 0 <= i < partitions.len() ==> uniform_part(#[trigger] partitions@[i]),
            forall|i: int|
                0 <= i < partitions.len() - 1 ==> (#[trigger] partitions@[i]).spec_is_visible()
                    != partitions@[i + 1].spec_is_visible(),
            partitions.len() > 0 ==> partitions@.last().spec_is_visible() != current_visible,
            forall|j: int|
                start_of_current <= j < idx ==> if current_visible {
                    is_visible(#[trigger] chars@[j])
                } else {
                    is_space_like(chars@[j])
                },
            forall|j: int|
                0 <= j < idx ==> is_visible(#[trigger] chars@[j]) || is_space_like(chars@[j]),
        decreases n - idx,
    {
        let ch = chars[idx];
        if is_vchar(ch, MailType::Internationalized) {
            if !current_visible {
                let run = text.substring_char(start_of_current, idx);
                let part = Partition::SPACE(run);
                proof {
                    lemma_concat_push(partitions@, part);
                    assert(text@.subrange(0, start_of_current as int) + run@ =~= text@.subrange(
                        0,
                        idx as int,
                    ));
                    assert(uniform_part(part));
                }
                partitions.push(part);
                start_of_current = idx;
                current_visible = true;
            }
        } else if is_ws(ch) || ch == '\r' || ch == '\n' {
            if current_visible {
                let run = text.substring_char(start_of_current, idx);
                let part = Partition::VCHAR(run);
                proof {
                    lemma_concat_push(partitions@, part);
                    assert(text@.subrange(0, start_of_current as int) + run@ =~= text@.subrange(
                        0,
                        idx as int,
                    ));
                    assert(uniform_part(part));
                }
                partitions.push(part);
                start_of_current = idx;
                current_visible = false;
            }
        } else {
            assert(!(is_visible(text@[idx as int]) || is_space_like(text@[idx as int])));
            return Err(ComponentError::NeedAtLastOneVCHAR(text.to_owned()));
        }
        idx = idx + 1;
    }
    let run = text.substring_char(start_of_current, n);
    let part = if current_visible {
        Partition::VCHAR(run)
    } else {
        Partition::SPACE(run)
    };
    proof {
        lemma_concat_push(partitions@, part);
        assert(text@.subrange(0, start_of_current as int) + run@ =~= text@);
        assert(uniform_part(part));
    }
    partitions.push(part);
    Ok(partitions)
}

/// A text has one partition only.
pub proof fn lemma_partition_unique(a: Seq<Partition>, b: Seq<Partition>, s: Seq<char>)
    requires
        is_partition_of(a, s),
        is_partition_of(b, s),
    ensures
        a.len() == b.len(),
        forall|i: int|
            0 <= i < a.len() ==> (#[trigger] a[i]).text() == b[i].text() && a[i].spec_is_visible()
                == b[i].spec_is_visible(),
    decreases a.len() + b.len(),
{
    if a.len() == 0 || b.len() == 0 {
        lemma_concat_len_zero(a);
        lemma_concat_len_zero(b);
    } else {
        let la = a.last();
        let lb = b.last();
        let ra = a.drop_last();
        let rb = b.drop_last();
        assert(uniform_part(la));
        assert(uniform_part(lb));
        lemma_last_run(a, s);
        lemma_last_run(b, s);
        assert(la.text().len() == lb.text().len());
        assert(la.text() =~= s.subrange(s.len() - la.text().len(), s.len() as int));
        assert(lb.text() =~= s.subrange(s.len() - lb.text().len(), s.len() as int));
        let rest = s.subrange(0, s.len() - la.text().len());
        assert(concat_parts(ra) =~= rest);
        assert(concat_parts(rb) =~= rest);
        assert(is_partition_of(ra, rest)) by {
            assert forall|i: int| 0 <= i < ra.len() implies uniform_part(#[trigger] ra[i]) by {
                assert(ra[i] == a[i]);
            }
            assert forall|i: int| 0 <= i < ra.len() - 1 implies (#[trigger] ra[i]).spec_is_visible()
                != ra[i + 1].spec_is_visible() by {
                assert(ra[i] == a[i]);
                assert(ra[i + 1] == a[i + 1]);
            }
        }
        assert(is_partition_of(rb, rest)) by {
            assert forall|i: int| 0 <= i < rb.len() implies uniform_part(#[trigger] rb[i]) by {
                assert(rb[i] == b[i]);
            }
            assert forall|i: int| 0 <= i < rb.len() - 1 implies (#[trigger] rb[i]).spec_is_visible()
                != rb[i + 1].spec_is_visible() by {
                assert(rb[i] == b[i]);
                assert(rb[i + 1] == b[i + 1]);
            }
        }
        lemma_partition_unique(ra, rb, rest);
        assert forall|i: int| 0 <= i < a.len() implies (#[trigger] a[i]).text() == b[i].text()
            && a[i].spec_is_visible() == b[i].spec_is_visible() by {
            if i < a.len() - 1 {
                assert(ra[i] == a[i]);
                assert(rb[i] == b[i]);
            }
        }
    }
}

/// The kind of a character: visible or not.
spec fn kind_at(s: Seq<char>, i: int) -> bool {
    is_visible(s[i])
}

/// The length of the longest run of one kind that ends `s`.
spec fn last_run_len(s: Seq<char>) -> nat
    decreases s.len(),
{
    if s.len() == 0 {
        0
    } else if s.len() == 1 {
        1
    } else if kind_at(s, s.len() - 1) == kind_at(s, s.len() - 2) {
        1 + last_run_len(s.drop_last())
    } else {
        1
    }
}

proof fn lemma_concat_len_zero(parts: Seq<Partition>)
    requires
        forall|i: int| 0 <= i < parts.len() ==> uniform_part(#[trigger] parts[i]),
    ensures
        parts.len() > 0 ==> concat_parts(parts).len() > 0,
        parts.len() == 0 ==> concat_parts(parts).len() == 0,
{
    if parts.len() > 0 {
        assert(uniform_part(parts.last()));
    }
}

/// Towards uniqueness: the last run of a partition of `s` is the longest
/// run of one kind that ends `s`, and is of the kind of the last character.
proof fn lemma_last_run(parts: Seq<Partition>, s: Seq<char>)
    requires
        is_partition_of(parts, s),
        parts.len() > 0,
    ensures
        s.len() > 0,
        parts.last().text().len() == last_run_len(s),
        parts.last().text().len() <= s.len(),
        parts.last().spec_is_visible() == kind_at(s, s.len() - 1),
{
    let last = parts.last();
    let t = last.text();
    let rest = parts.drop_last();
    assert(uniform_part(last));
    assert(s =~= concat_parts(rest) + t);
    lemma_visible_not_space();
    lemma_run_len(s, t.len() as int, last.spec_is_visible());
    if rest.len() > 0 {
        let prev = rest.last();
        assert(prev == parts[parts.len() - 2]);
        assert(uniform_part(prev));
        assert(concat_parts(rest) =~= concat_parts(rest.drop_last()) + prev.text());
        let k = s.len() - t.len() - 1;
        assert(s[k] == prev.text()[prev.text().len() - 1]);
        assert(prev.spec_is_visible() != last.spec_is_visible());
    }
    assert forall|j: int| s.len() - t.len() <= j < s.len() implies kind_at(s, j)
        == last.spec_is_visible() by {
        assert(s[j] == t[j - (s.len() - t.len())]);
    }
}

proof fn lemma_visible_not_space()
    ensures
        forall|ch: char| !(is_visible(ch) && is_space_like(ch)),
{
}

/// If the last `k` characters of `s` are of one kind and the one before
/// them (if any) is of the other, the last run of `s` has length `k`.
proof fn lemma_run_len(s: Seq<char>, k: int, visible: bool)
    requires
        0 < k <= s.len(),
    ensures
        ((forall|j: int| s.len() - k <= j < s.len() ==> kind_at(s, j) == visible) && (s.len() > k
            ==> kind_at(s, s.len() - k - 1) != visible)) ==> last_run_len(s) == k,
    decreases k,
{
    if (forall|j: int| s.len() - k <= j < s.len() ==> kind_at(s, j) == visible) && (s.len() > k
        ==> kind_at(s, s.len() - k - 1) != visible) {
        if s.len() == 1 {
        } else if k == 1 {
            assert(kind_at(s, s.len() - 1) == visible);
        } else {
            let d = s.drop_last();
            assert(kind_at(s, s.len() - 1) == visible);
            assert(kind_at(s, s.len() - 2) == visible);
            assert forall|j: int| d.len() - (k - 1) <= j < d.len() implies kind_at(d, j)
                == visible by {
                assert(d[j] == s[j]);
                assert(kind_at(s, j) == visible);
            }
            if d.len() > k - 1 {
                assert(d[d.len() - (k - 1) - 1] == s[s.len() - k - 1]);
            }
            lemma_run_len(d, k - 1, visible);
        }
    }
}

} // verus!
