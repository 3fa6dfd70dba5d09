use vstd::prelude::*;
use vstd::string::*;

use crate::commands::state::TmpTarget;

verus! {

/// Whether `s` is among `v`.
pub open spec fn listed(v: Seq<String>, s: Seq<char>) -> bool {
    exists|i: int| 0 <= i < v.len() && v[i]@ == s
}

/// Whether the two lists have an element in common.
pub open spec fn overlap(a: Seq<String>, b: Seq<String>) -> bool {
    exists|i: int| 0 <= i < a.len() && listed(b, #[trigger] a[i]@)
}

/// Whether a reader that speaks `channels` and `serializations` may link to
/// the open writer `t`.
pub open spec fn target_fits(t: TmpTarget, channels: Seq<String>, serializations: Seq<String>) -> bool {
    overlap(t.possible_channels@, channels) && overlap(t.possible_serializations@, serializations)
}

/// The elements of `a` that are also in `b`, in the order of `a`.
pub open spec fn common(a: Seq<String>, b: Seq<String>) -> Seq<String> {
    a.filter(|x: String| listed(b, x@))
}

pub fn contains_str(v: &Vec<String>, s: &String) -> (r: bool)
    ensures
        r == listed(v@, s@),
{
    let mut i: usize = 0;
    while i < v.len()
        invariant
            i <= v@.len(),
            forall|j: int| 0 <= j < i ==> v@[j]@ != s@,
        decreases v@.len() - i,
    {
        if v[i] == *s {
            return true;
        }
        i = i + 1;
    }
    false
}

pub fn overlaps(a: &Vec<String>, b: &Vec<String>) -> (r: bool)
    ensures
        r == overlap(a@, b@),
{
    let mut i: usize = 0;
    while i < a.len()
        invariant
            i <= a@.len(),
            forall|j: int| 0 <= j < i ==> !listed(b@, #[trigger] a@[j]@),
        decreases a@.len() - i,
    {
        if contains_str(b, &a[i]) {
            return true;
        }
        i = i + 1;
    }
    false
}

/// The elements of `a` that `b` also lists, in the order of `a`.
pub fn shared(a: &Vec<String>, b: &Vec<String>) -> (r: Vec<String>)
    ensures
        r@ == common(a@, b@),
{
    let mut r: Vec<String> = Vec::new();
    let mut i: usize = 0;
    while i < a.len()
        invariant
            i <= a@.len(),
            r@ == common(a@.take(i as int), b@),
        decreases a@.len() - i,
    {
        proof {
            reveal(Seq::filter);
            assert(a@.take(i + 1).drop_last() =~= a@.take(i as int));
        }
        if contains_str(b, &a[i]) {
            r.push(a[i].clone());
        }
        i = i + 1;
    }
    assert(a@.take(i as int) =~= a@);
    r
}

/// Tells which open writers a reader may link to.
pub struct TargetFilter {
    pub channel_types: Vec<String>,
    pub ser_types: Vec<String>,
}

impl TargetFilter {
    pub fn accepts(&self, t: &TmpTarget) -> (r: bool)
        ensures
            r == target_fits(*t, self.channel_types@, self.ser_types@),
    {
        overlaps(&t.possible_channels, &self.channel_types) && overlaps(
            &t.possible_serializations,
            &self.ser_types,
        )
    }
}

/// The filter for a reader that speaks `channel_types` and `ser_types`.
pub fn create_valid_tmp_target_fn(channel_types: &Vec<String>, ser_types: &Vec<String>) -> (r:
    TargetFilter)
    ensures
        r.channel_types@ == channel_types@,
        r.ser_types@ == ser_types@,
{
    TargetFilter { channel_types: copy_strings(channel_types), ser_types: copy_strings(ser_types) }
}

pub fn copy_strings(v: &Vec<String>) -> (r: Vec<String>)
    ensures
        r@ == v@,
{
    let mut r: Vec<String> = Vec::new();
    let mut i: usize = 0;
    while i < v.len()
        invariant
            i <= v@.len(),
            r@ == v@.take(i as int),
        decreases v@.len() - i,
    {
        r.push(v[i].clone());
        i = i + 1;
        assert(r@ =~= v@.take(i as int));
    }
    assert(v@.take(i as int) =~= v@);
    r
}

/// The single item, if there is exactly one.
pub fn get_if_only_one<T>(items: Vec<T>) -> (r: Option<T>)
    ensures
        items@.len() == 1 ==> r == Some(items@[0]),
        items@.len() != 1 ==> r is None,
{
    let mut items = items;
    if items.len() == 1 {
        items.pop()
    } else {
        None
    }
}

/// The serialization picked at position `choice` of `options`.
pub fn ask_user_for_serialization(options: &Vec<String>, choice: usize) -> (r: String)
    requires
        choice < options@.len(),
    ensures
        r == options@[choice as int],
{
    options[choice].clone()
}

/// Whether `p` begins `s`.
pub open spec fn is_prefix(p: Seq<char>, s: Seq<char>) -> bool {
    p.len() <= s.len() && s.subrange(0, p.len() as int) == p
}

/// Whether `p` begins every line and is the longest such text: some line ends
/// right after it, or two lines differ at the next character.
pub open spec fn is_longest_common_prefix(p: Seq<char>, lines: Seq<String>) -> bool {
    &&& forall|i: int| 0 <= i < lines.len() ==> is_prefix(p, #[trigger] lines[i]@)
    &&& exists|i: int, j: int|
        0 <= i < lines.len() && 0 <= j < lines.len() && (lines[i]@.len() == p.len() || (p.len()
            < lines[j]@.len() && lines[i]@[p.len() as int] != lines[j]@[p.len() as int]))
}

/// The number of leading characters that `a` and `b` share.
pub fn shared_prefix_len(a: &str, b: &str) -> (k: usize)
    ensures
        k <= a@.len(),
        k <= b@.len(),
        a@.subrange(0, k as int) == b@.subrange(0, k as int),
        k == a@.len() || k == b@.len() || a@[k as int] != b@[k as int],
{
    let n = a.unicode_len();
    let m = b.unicode_len();
    let mut k: usize = 0;
    while k < n && k < m && a.get_char(k) == b.get_char(k)
        invariant
            k <= n,
            k <= m,
            n == a@.len(),
            m == b@.len(),
            a@.subrange(0, k as int) == b@.subrange(0, k as int),
        decreases n - k,
    {
        assert(a@.subrange(0, k + 1) =~= a@.subrange(0, k as int).push(a@[k as int]));
        assert(b@.subrange(0, k + 1) =~= b@.subrange(0, k as int).push(b@[k as int]));
        k = k + 1;
    }
    k
}

/// The longest text that begins every line; `None` when there is no line or
/// that text is empty.
pub fn longest_common_prefix(lines: &Vec<String>) -> (r: Option<String>)
    ensures
        r matches Some(p) ==> p@.len() > 0 && is_longest_common_prefix(p@, lines@),
        r is None ==> lines@.len() == 0 || is_longest_common_prefix(Seq::empty(), lines@),
{
    if lines.len() == 0 {
        return None;
    }
    let mut common: &str = lines[0].as_str();
    let ghost mut wi: int = 0;
    let ghost mut wj: int = 0;
    let mut i: usize = 1;
    assert(lines@[0]@.subrange(0, common@.len() as int) =~= common@);
    while i < lines.len()
        invariant
            1 <= i <= lines@.len(),
            0 <= wi < i,
            0 <= wj < i,
            forall|k: int| 0 <= k < i ==> is_prefix(common@, #[trigger] lines@[k]@),
            lines@[wi]@.len() == common@.len() || (common@.len() < lines@[wj]@.len()
                && lines@[wi]@[common@.len() as int] != lines@[wj]@[common@.len() as int]),
        decreases lines@.len() - i,
    {
        let line = lines[i].as_str();
        let k = shared_prefix_len(line, common);
        if k < common.unicode_len() {
            let ghost old_common = common@;
            common = common.substring_char(0, k);
            proof {
                assert(is_prefix(old_common, lines@[0]@));
                if k == line@.len() {
                    wi = i as int;
                    wj = i as int;
                } else {
                    wi = i as int;
                    wj = 0;
                    assert(lines@[0]@[k as int] == old_common[k as int]);
                }
                assert forall|q: int| 0 <= q < i + 1 implies is_prefix(common@, #[trigger] lines@[q]@) by {
                    if q < i {
                        assert(is_prefix(old_common, lines@[q]@));
                        assert(lines@[q]@.subrange(0, k as int) =~= old_common.subrange(0, k as int));
                    } else {
                        assert(line@.subrange(0, k as int) =~= old_common.subrange(0, k as int));
                    }
                }
            }
        } else {
            proof {
                assert(line@.subrange(0, common@.len() as int) =~= common@);
                if lines@[wi]@.len() == common@.len() {
                } else {
                    assert(is_prefix(common@, lines@[wj]@));
                }
            }
        }
        i = i + 1;
    }
    if common.unicode_len() == 0 {
        assert(common@ =~= Seq::<char>::empty());
        None
    } else {
        Some(String::from_str(common))
    }
}

} // verus!
