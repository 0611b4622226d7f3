//! The line protocol of the input server:
//! `screen W H | tap x y | down x y | move x y | up x y | swipe x1 y1 x2 y2 ms`.
//! A line is split at single spaces; the first piece names the command and
//! the pieces after it are its arguments, handed on as text (coordinates
//! are decimal fractions and are read by the caller).
use vstd::prelude::*;
use crate::mirror::{decimal, digits_value, lemma_decimal_denotes};

verus! {

/// The pieces of `s` between single spaces, as `str::split(' ')` gives
/// them: `n` spaces give `n + 1` pieces, empty pieces included.
pub open spec fn split_spaces(s: Seq<u8>) -> Seq<Seq<u8>>
    decreases s.len(),
{
    if s.len() == 0 {
        seq![Seq::empty()]
    } else {
        let p = split_spaces(s.drop_last());
        if s.last() == 32 {
            p.push(Seq::empty())
        } else {
            p.update(p.len() - 1, p.last().push(s.last()))
        }
    }
}

proof fn lemma_split_spaces_nonempty(s: Seq<u8>)
    ensures
        split_spaces(s).len() >= 1,
    decreases s.len(),
{
    if s.len() > 0 {
        lemma_split_spaces_nonempty(s.drop_last());
    }
}

/// The pieces `p` joined back with single spaces.
pub open spec fn join_spaces(p: Seq<Seq<u8>>) -> Seq<u8>
    decreases p.len(),
{
    if p.len() <= 1 {
        if p.len() == 1 {
            p[0]
        } else {
            Seq::empty()
        }
    } else {
        join_spaces(p.drop_last()) + seq![32u8] + p.last()
    }
}

/// Law: splitting at spaces loses nothing: no piece holds a space, and
/// joining the pieces with single spaces gives the line back.
pub proof fn lemma_split_spaces_rejoins(s: Seq<u8>)
    ensures
        join_spaces(split_spaces(s)) == s,
        forall|k: int, i: int|
            0 <= k < split_spaces(s).len() && 0 <= i < split_spaces(s)[k].len() ==> #[trigger] split_spaces(
                s,
            )[k][i] != 32,
    decreases s.len(),
{
    lemma_split_spaces_nonempty(s);
    if s.len() == 0 {
    } else {
        let q = s.drop_last();
        lemma_split_spaces_rejoins(q);
        lemma_split_spaces_nonempty(q);
        let p = split_spaces(q);
        if s.last() == 32 {
            let r = p.push(Seq::<u8>::empty());
            assert(r.drop_last() =~= p);
            assert(join_spaces(r) =~= q + seq![32u8]);
            assert(q + seq![32u8] =~= s);
            assert forall|k: int, i: int|
                0 <= k < r.len() && 0 <= i < r[k].len() implies #[trigger] r[k][i] != 32 by {
                if k < p.len() {
                    assert(r[k] == p[k]);
                }
            }
        } else {
            let r = p.update(p.len() - 1, p.last().push(s.last()));
            if p.len() == 1 {
                assert(join_spaces(r) == r[0]);
                assert(join_spaces(p) == p[0]);
                assert(r[0] =~= q + seq![s.last()]);
            } else {
                assert(r.drop_last() =~= p.drop_last());
                assert(join_spaces(r) == join_spaces(p.drop_last()) + seq![32u8] + r.last());
                assert(join_spaces(p) == join_spaces(p.drop_last()) + seq![32u8] + p.last());
                assert(join_spaces(r) =~= join_spaces(p) + seq![s.last()]);
            }
            assert(q + seq![s.last()] =~= s);
            assert forall|k: int, i: int|
                0 <= k < r.len() && 0 <= i < r[k].len() implies #[trigger] r[k][i] != 32 by {
                if k < p.len() - 1 {
                    assert(r[k] == p[k]);
                } else if i < p.last().len() {
                    assert(r[k][i] == p[k][i]);
                }
            }
        }
    }
}

/// Splits `line` at single spaces.
pub fn split_at_spaces(line: &[u8]) -> (parts: Vec<Vec<u8>>)
    ensures
        parts@.map_values(|p: Vec<u8>| p@) == split_spaces(line@),
{
    let mut parts: Vec<Vec<u8>> = Vec::new();
    let mut cur: Vec<u8> = Vec::new();
    let mut i: usize = 0;
    while i < line.len()
        invariant
            i <= line@.len(),
            parts@.map_values(|p: Vec<u8>| p@).push(cur@) == split_spaces(
                line@.subrange(0, i as int),
            ),
        decreases line@.len() - i,
    {
        let ghost before = parts@.map_values(|p: Vec<u8>| p@).push(cur@);
        proof {
            lemma_split_spaces_nonempty(line@.subrange(0, i as int));
            assert(line@.subrange(0, i + 1).drop_last() =~= line@.subrange(0, i as int));
        }
        if line[i] == 32u8 {
            let done = cur;
            cur = Vec::new();
            parts.push(done);
            assert(parts@.map_values(|p: Vec<u8>| p@).push(cur@) =~= before.push(Seq::empty()));
        } else {
            cur.push(line[i]);
            assert(parts@.map_values(|p: Vec<u8>| p@).push(cur@) =~= before.update(
                before.len() - 1,
                before.last().push(line@[i as int]),
            ));
        }
        i += 1;
    }
    assert(line@.subrange(0, line@.len() as int) =~= line@);
    parts.push(cur);
    parts
}

/// Every byte of `s` is an ASCII digit.
pub open spec fn all_digits(s: Seq<u8>) -> bool {
    forall|i: int| 0 <= i < s.len() ==> 48 <= #[trigger] s[i] <= 57
}

/// The value of an unsigned decimal number as `u32::from_str` reads it: an
/// optional `+`, then at least one digit and nothing else; `None` when the
/// text is not such a number.
pub open spec fn unsigned_text_value(s: Seq<u8>) -> Option<int> {
    let d = if s.len() > 0 && s[0] == 43 {
        s.drop_first()
    } else {
        s
    };
    if d.len() > 0 && all_digits(d) {
        Some(digits_value(d))
    } else {
        None
    }
}

/// `u32::from_str` on `s`: the value when `s` is an unsigned decimal number
/// that fits in a `u32`, `None` otherwise.
pub open spec fn parse_u32_spec(s: Seq<u8>) -> Option<u32> {
    match unsigned_text_value(s) {
        Some(v) => if v <= u32::MAX {
            Some(v as u32)
        } else {
            None
        },
        None => None,
    }
}

proof fn lemma_digits_value_grows(s: Seq<u8>, i: int)
    requires
        0 <= i <= s.len(),
        all_digits(s),
    ensures
        digits_value(s.subrange(0, i)) <= digits_value(s),
        0 <= digits_value(s.subrange(0, i)),
    decreases s.len() - i,
{
    if i < s.len() {
        lemma_digits_value_grows(s, i + 1);
        assert(s.subrange(0, i + 1).drop_last() =~= s.subrange(0, i));
        assert(48 <= s[i] <= 57);
    } else {
        assert(s.subrange(0, i) =~= s);
        lemma_digits_value_nonneg(s);
    }
}

proof fn lemma_digits_value_nonneg(s: Seq<u8>)
    requires
        all_digits(s),
    ensures
        0 <= digits_value(s),
    decreases s.len(),
{
    if s.len() > 0 {
        assert(all_digits(s.drop_last()));
        lemma_digits_value_nonneg(s.drop_last());
        assert(48 <= s[s.len() - 1] <= 57);
    }
}

/// Reads `s` as `u32::from_str` does.
pub fn parse_u32(s: &[u8]) -> (r: Option<u32>)
    ensures
        r == parse_u32_spec(s@),
{
    let start: usize = if s.len() > 0 && s[0] == 43u8 {
        1
    } else {
        0
    };
    let ghost d = s@.subrange(start as int, s@.len() as int);
    assert(d =~= (if s@.len() > 0 && s@[0] == 43 {
        s@.drop_first()
    } else {
        s@
    }));
    if start >= s.len() {
        return None;
    }
    let mut acc: u64 = 0;
    let mut i: usize = start;
    while i < s.len()
        invariant
            start <= i <= s@.len(),
            d == s@.subrange(start as int, s@.len() as int),
            d == (if s@.len() > 0 && s@[0] == 43 {
                s@.drop_first()
            } else {
                s@
            }),
            d.len() > 0,
            all_digits(d.subrange(0, i - start)),
            acc == digits_value(d.subrange(0, i - start)),
            acc <= u32::MAX,
        decreases s@.len() - i,
    {
        let b = s[i];
        if b < 48u8 || b > 57u8 {
            assert(d[i - start] == b);
            assert(!all_digits(d));
            return None;
        }
        let ghost prev = d.subrange(0, i - start);
        proof {
            assert(d.subrange(0, i - start + 1).drop_last() =~= prev);
            assert(d.subrange(0, i - start + 1).last() == b);
            assert(digits_value(d.subrange(0, i - start + 1)) == acc * 10 + (b - 48));
        }
        let next: u64 = acc * 10 + (b - 48u8) as u64;
        i += 1;
        assert(all_digits(d.subrange(0, i - start)));
        if next > 4294967295u64 {
            proof {
                if all_digits(d) {
                    lemma_digits_value_grows(d, i - start);
                    assert(digits_value(d) > u32::MAX);
                }
            }
            return None;
        }
        acc = next;
    }
    assert(d.subrange(0, d.len() as int) =~= d);
    Some(acc as u32)
}

/// Law: the decimal text of any `u32` reads back as that value.
pub proof fn lemma_decimal_reads_back(n: u32)
    ensures
        parse_u32_spec(decimal(n as nat)) == Some(n),
{
    lemma_decimal_denotes(n as nat);
    let d = decimal(n as nat);
    assert(48 <= d[0] <= 57);
    assert(all_digits(d));
}

/// Word `screen`.
pub open spec fn word_screen() -> Seq<u8> {
    seq![115u8, 99u8, 114u8, 101u8, 101u8, 110u8]
}

/// Word `tap`.
pub open spec fn word_tap() -> Seq<u8> {
    seq![116u8, 97u8, 112u8]
}

/// Word `down`.
pub open spec fn word_down() -> Seq<u8> {
    seq![100u8, 111u8, 119u8, 110u8]
}

/// Word `move`.
pub open spec fn word_move() -> Seq<u8> {
    seq![109u8, 111u8, 118u8, 101u8]
}

/// Word `up`.
pub open spec fn word_up() -> Seq<u8> {
    seq![117u8, 112u8]
}

/// Word `swipe`.
pub open spec fn word_swipe() -> Seq<u8> {
    seq![115u8, 119u8, 105u8, 112u8, 101u8]
}

/// Swipe duration in milliseconds when the given one is not a number.
pub const DEFAULT_SWIPE_MS: u32 = 120;

/// A request of the input protocol; coordinates stay as text.
pub enum Command {
    /// Set the screen size.
    Screen { w: Vec<u8>, h: Vec<u8> },
    /// Hover over a point, then tap it.
    Tap { x: Vec<u8>, y: Vec<u8> },
    /// Touch down at a point.
    Down { x: Vec<u8>, y: Vec<u8> },
    /// Move the touch to a point.
    Move { x: Vec<u8>, y: Vec<u8> },
    /// Release the touch at a point.
    Up { x: Vec<u8>, y: Vec<u8> },
    /// Swipe between two points over `dur_ms` milliseconds.
    Swipe { x1: Vec<u8>, y1: Vec<u8>, x2: Vec<u8>, y2: Vec<u8>, dur_ms: u32 },
    /// An unknown command, or too few arguments.
    Ignore,
}

/// `p` names the command `word` and has at least `n` arguments.
pub open spec fn names(p: Seq<Seq<u8>>, word: Seq<u8>, n: int) -> bool {
    p.len() >= n + 1 && p[0] == word
}

fn slice_eq(a: &[u8], b: &[u8]) -> (r: bool)
    ensures
        r == (a@ == b@),
{
    if a.len() != b.len() {
        return false;
    }
    let mut i: usize = 0;
    while i < a.len()
        invariant
            i <= a@.len() == b@.len(),
            a@.subrange(0, i as int) == b@.subrange(0, i as int),
        decreases a@.len() - i,
    {
        if a[i] != b[i] {
            return false;
        }
        i += 1;
        assert(a@.subrange(0, i as int) =~= b@.subrange(0, i as int));
    }
    assert(a@ =~= a@.subrange(0, i as int));
    assert(b@ =~= b@.subrange(0, i as int));
    true
}

/// Reads one request from a line whose surrounding whitespace is trimmed:
/// the first piece names the command, which is only acted on when enough
/// arguments follow (extra pieces are ignored); a swipe duration that is
/// not a `u32` is [`DEFAULT_SWIPE_MS`].
pub fn parse_command(line: &[u8]) -> (c: Command)
    ensures
        ({
            let p = split_spaces(line@);
            match c {
                Command::Screen { w, h } => names(p, word_screen(), 2) && w@ == p[1] && h@ == p[2],
                Command::Tap { x, y } => names(p, word_tap(), 2) && x@ == p[1] && y@ == p[2],
                Command::Down { x, y } => names(p, word_down(), 2) && x@ == p[1] && y@ == p[2],
                Command::Move { x, y } => names(p, word_move(), 2) && x@ == p[1] && y@ == p[2],
                Command::Up { x, y } => names(p, word_up(), 2) && x@ == p[1] && y@ == p[2],
                Command::Swipe { x1, y1, x2, y2, dur_ms } => {
                    &&& names(p, word_swipe(), 5)
                    &&& x1@ == p[1] && y1@ == p[2] && x2@ == p[3] && y2@ == p[4]
                    &&& dur_ms == match parse_u32_spec(p[5]) {
                        Some(v) => v,
                        None => DEFAULT_SWIPE_MS,
                    }
                },
                Command::Ignore => {
                    &&& !names(p, word_screen(), 2)
                    &&& !names(p, word_tap(), 2)
                    &&& !names(p, word_down(), 2)
                    &&& !names(p, word_move(), 2)
                    &&& !names(p, word_up(), 2)
                    &&& !names(p, word_swipe(), 5)
                },
            }
        }),
{
    let parts = split_at_spaces(line);
    let ghost p = split_spaces(line@);
    proof {
        lemma_split_spaces_nonempty(line@);
        assert(parts@.len() == p.len());
        assert forall|k: int| 0 <= k < p.len() implies #[trigger] parts@[k]@ == p[k] by {
            assert(parts@.map_values(|q: Vec<u8>| q@)[k] == p[k]);
        }
    }
    let n = parts.len();
    let first = parts[0].as_slice();
    let screen: Vec<u8> = vec![115u8, 99u8, 114u8, 101u8, 101u8, 110u8];
    let tap: Vec<u8> = vec![116u8, 97u8, 112u8];
    let down: Vec<u8> = vec![100u8, 111u8, 119u8, 110u8];
    let mv: Vec<u8> = vec![109u8, 111u8, 118u8, 101u8];
    let up: Vec<u8> = vec![117u8, 112u8];
    let swipe: Vec<u8> = vec![115u8, 119u8, 105u8, 112u8, 101u8];
    assert(screen@ =~= word_screen());
    assert(tap@ =~= word_tap());
    assert(down@ =~= word_down());
    assert(mv@ =~= word_move());
    assert(up@ =~= word_up());
    assert(swipe@ =~= word_swipe());
    if n >= 3 && slice_eq(first, screen.as_slice()) {
        Command::Screen { w: parts[1].clone(), h: parts[2].clone() }
    } else if n >= 3 && slice_eq(first, tap.as_slice()) {
        Command::Tap { x: parts[1].clone(), y: parts[2].clone() }
    } else if n >= 3 && slice_eq(first, down.as_slice()) {
        Command::Down { x: parts[1].clone(), y: parts[2].clone() }
    } else if n >= 3 && slice_eq(first, mv.as_slice()) {
        Command::Move { x: parts[1].clone(), y: parts[2].clone() }
    } else if n >= 3 && slice_eq(first, up.as_slice()) {
        Command::Up { x: parts[1].clone(), y: parts[2].clone() }
    } else if n >= 6 && slice_eq(first, swipe.as_slice()) {
        let dur_ms = match parse_u32(parts[5].as_slice()) {
            Some(v) => v,
            None => DEFAULT_SWIPE_MS,
        };
        Command::Swipe {
            x1: parts[1].clone(),
            y1: parts[2].clone(),
            x2: parts[3].clone(),
            y2: parts[4].clone(),
            dur_ms,
        }
    } else {
        Command::Ignore
    }
}

} // verus!
