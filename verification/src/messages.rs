//! Humorous reminder copy: the message pool and repeat-avoiding picks.
use vstd::prelude::*;

use crate::clock::unix_now_nanos;

verus! {

/// Whether a character has the Unicode `White_Space` property, as
/// `char::is_whitespace` tests it: the controls U+0009 to U+000D, the space,
/// U+0085, the no-break space, the Ogham space mark, the spaces U+2000 to
/// U+200A, the line and paragraph separators, the narrow no-break space, the
/// medium mathematical space and the ideographic space.
pub open spec fn unicode_whitespace(c: char) -> bool {
    let v = c as u32;
    ||| 0x09 <= v <= 0x0D
    ||| v == 0x20
    ||| v == 0x85
    ||| v == 0xA0
    ||| v == 0x1680
    ||| 0x2000 <= v <= 0x200A
    ||| v == 0x2028
    ||| v == 0x2029
    ||| v == 0x202F
    ||| v == 0x205F
    ||| v == 0x3000
}

/// A text made only of whitespace (or empty).
pub open spec fn is_blank(s: Seq<char>) -> bool {
    forall|i: int| 0 <= i < s.len() ==> unicode_whitespace(#[trigger] s[i])
}

/// Whether `c` has the `White_Space` property.
fn is_unicode_whitespace(c: char) -> (r: bool)
    ensures
        r == unicode_whitespace(c),
{
    let v = c as u32;
    (0x09 <= v && v <= 0x0D) || v == 0x20 || v == 0x85 || v == 0xA0 || v == 0x1680
        || (0x2000 <= v && v <= 0x200A) || v == 0x2028 || v == 0x2029 || v == 0x202F
        || v == 0x205F || v == 0x3000
}

/// Whether the text is empty once leading and trailing whitespace is
/// trimmed, that is, whether every character is whitespace.
fn text_is_blank(s: &str) -> (r: bool)
    ensures
        r == is_blank(s@),
{
    let n = s.unicode_len();
    let mut i: usize = 0;
    while i < n
        invariant
            i <= n,
            n == s@.len(),
            forall|j: int| 0 <= j < i ==> unicode_whitespace(#[trigger] s@[j]),
        decreases n - i,
    {
        let c = s.get_char(i);
        if !is_unicode_whitespace(c) {
            return false;
        }
        i += 1;
    }
    true
}

/// The built-in reminder lines.
pub open spec fn builtin_messages() -> Seq<Seq<char>> {
    seq![
        "喂我之前，先喂一下你的健康：站起来走两步。"@,
        "我已经快饿扁了，你的腰也快僵了。"@,
        "主人，你不是我的坐骑，请不要骑着椅子不动。"@,
        "再不起来，我就要怀疑你被椅子封印了。"@,
    ]
}

/// The user's lines that are not blank, in order.
pub open spec fn kept_custom(c: Seq<Seq<char>>) -> Seq<Seq<char>>
    decreases c.len(),
{
    if c.len() == 0 {
        Seq::empty()
    } else if is_blank(c.last()) {
        kept_custom(c.drop_last())
    } else {
        kept_custom(c.drop_last()).push(c.last())
    }
}

/// Everything a reminder may say: the built-ins, then the user's lines.
pub open spec fn message_pool(custom: Seq<Seq<char>>) -> Seq<Seq<char>> {
    builtin_messages() + kept_custom(custom)
}

pub open spec fn strings_view(v: Seq<String>) -> Seq<Seq<char>> {
    v.map_values(|s: String| s@)
}

/// Index picked from a seed among `n` entries, moved one on when it would
/// repeat `last` and there is a choice.
pub open spec fn pick_index_spec(n: usize, last: usize, seed: u64) -> usize {
    if n == 0 {
        0
    } else {
        let idx = ((seed as usize) % n) as usize;
        if n > 1 && idx == last { ((idx + 1) % (n as int)) as usize } else { idx }
    }
}

/// Which reminder line and card were shown last (`usize::MAX`: none yet),
/// so that the next pick does not repeat them.
#[derive(Debug, Clone, Copy, PartialEq, Eq, Structural)]
pub struct PickHistory {
    pub last_message: usize,
    pub last_card: usize,
}

impl PickHistory {
    pub fn new() -> (r: Self)
        ensures
            r.last_message == usize::MAX,
            r.last_card == usize::MAX,
    {
        PickHistory { last_message: usize::MAX, last_card: usize::MAX }
    }
}

/// A seed from the wall clock's nanoseconds (1 if the clock reads before the
/// epoch), spread by a golden-ratio multiply.
pub open spec fn seed_from_clock(nanos: Option<u128>) -> u64 {
    let base: u64 = match nanos {
        Some(n) => n as u64,
        None => 1,
    };
    vstd::wrapping::u64_specs::wrapping_mul(base, 0x9E37_79B9_7F4A_7C15u64)
}

fn simple_seed() -> (r: u64)
    ensures
        exists|nanos: Option<u128>| r == seed_from_clock(nanos),
{
    let nanos = unix_now_nanos();
    let base: u64 = match nanos {
        Some(n) => #[verifier::truncate] (n as u64),
        None => 1,
    };
    let r = base.wrapping_mul(0x9E37_79B9_7F4A_7C15);
    assert(r == seed_from_clock(nanos));
    r
}

/// Pick an index among `n` from `seed`, avoiding an immediate repeat of
/// `*last` when `n > 1`, and record it in `*last` (left alone when `n == 0`).
pub fn pick_index(n: usize, last: &mut usize, seed: u64) -> (r: usize)
    ensures
        r == pick_index_spec(n, *old(last), seed),
        n == 0 ==> r == 0 && *final(last) == *old(last),
        n > 0 ==> r < n && *final(last) == r,
        n > 1 ==> r != *old(last),
{
    if n == 0 {
        return 0;
    }
    let mut idx = (#[verifier::truncate] (seed as usize)) % n;
    if n > 1 && idx == *last {
        idx = (idx + 1) % n;
        assert(idx != *old(last)) by {
            let x = *old(last) as int;
            if x + 1 < n {
                vstd::arithmetic::div_mod::lemma_small_mod((x + 1) as nat, n as nat);
            } else {
                vstd::arithmetic::div_mod::lemma_mod_self_0(n as int);
            }
        }
    }
    *last = idx;
    idx
}

/// Pick a reminder-card index, avoiding an immediate repeat when `n > 1`.
pub fn pick_card_index(history: &mut PickHistory, n: usize) -> (r: usize)
    ensures
        final(history).last_message == old(history).last_message,
        n == 0 ==> r == 0 && final(history).last_card == old(history).last_card,
        n > 0 ==> r < n && final(history).last_card == r,
        n > 1 ==> r != old(history).last_card,
{
    let seed = simple_seed();
    pick_index(n, &mut history.last_card, seed)
}

/// The pick of `pick_message` for a given seed.
pub fn pick_message_seeded(history: &mut PickHistory, custom: &[String], seed: u64) -> (r: String)
    ensures
        final(history).last_card == old(history).last_card,
        final(history).last_message == pick_index_spec(
            message_pool(strings_view(custom@)).len() as usize,
            old(history).last_message,
            seed,
        ),
        final(history).last_message < message_pool(strings_view(custom@)).len(),
        r@ == message_pool(strings_view(custom@))[final(history).last_message as int],
        final(history).last_message != old(history).last_message,
{
    let mut pool: Vec<String> = Vec::new();
    pool.push("喂我之前，先喂一下你的健康：站起来走两步。".to_owned());
    pool.push("我已经快饿扁了，你的腰也快僵了。".to_owned());
    pool.push("主人，你不是我的坐骑，请不要骑着椅子不动。".to_owned());
    pool.push("再不起来，我就要怀疑你被椅子封印了。".to_owned());
    let ghost cv = strings_view(custom@);
    assert(strings_view(pool@) =~= builtin_messages() + kept_custom(cv.take(0)));
    let mut i: usize = 0;
    while i < custom.len()
        invariant
            i <= custom.len(),
            cv == strings_view(custom@),
            strings_view(pool@) =~= builtin_messages() + kept_custom(cv.take(i as int)),
            pool@.len() <= 4 + i,
        decreases custom.len() - i,
    {
        let c = &custom[i];
        assert(cv.take(i + 1).drop_last() =~= cv.take(i as int));
        assert(cv.take(i + 1).last() == c@);
        let ghost before = pool@;
        if !text_is_blank(c.as_str()) {
            let cc = c.clone();
            pool.push(cc);
            assert(strings_view(pool@) =~= strings_view(before).push(c@));
        }
        i += 1;
    }
    assert(cv.take(custom.len() as int) =~= cv);
    let n = pool.len();
    let idx = pick_index(n, &mut history.last_message, seed);
    pool[idx].clone()
}

/// Pick a reminder line (built-ins plus the user's non-blank lines), avoiding
/// an immediate repeat of the last one.
pub fn pick_message(history: &mut PickHistory, custom: &[String]) -> (r: String)
    ensures
        final(history).last_card == old(history).last_card,
        final(history).last_message < message_pool(strings_view(custom@)).len(),
        r@ == message_pool(strings_view(custom@))[final(history).last_message as int],
        final(history).last_message != old(history).last_message,
{
    let seed = simple_seed();
    assert(builtin_messages().len() == 4);
    pick_message_seeded(history, custom, seed)
}

} // verus!
