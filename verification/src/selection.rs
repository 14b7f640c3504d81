//! The selection model: an ordered list of path segments, a selection
//! index, a pending numeric prefix, and the memory of the last character
//! jump.
//!
//! Every operation keeps the selection index inside the segment list, which
//! is never empty.  Operations that move the selection consume the pending
//! numeric prefix; a prefix that is absent or does not fit the machine
//! counts as one.

use vstd::prelude::*;

use crate::path_split::concat_all;

verus! {

/// Direction of a character jump through the segment list.
#[derive(Clone, Copy, PartialEq, Eq, Structural, Debug)]
pub enum JumpDirection {
    Forward,
    Backward,
}

impl JumpDirection {
    /// The opposite direction, taken when a jump is repeated reversed.
    pub open spec fn spec_flip(self) -> JumpDirection {
        match self {
            JumpDirection::Forward => JumpDirection::Backward,
            JumpDirection::Backward => JumpDirection::Forward,
        }
    }

    /// The opposite direction, taken when a jump is repeated reversed.
    pub fn flip(self) -> (r: JumpDirection)
        ensures
            r == self.spec_flip(),
    {
        match self {
            JumpDirection::Forward => JumpDirection::Backward,
            JumpDirection::Backward => JumpDirection::Forward,
        }
    }
}

/// The most recent character jump, remembered so it can be repeated.
#[derive(Clone, Copy, PartialEq, Eq, Structural, Debug)]
pub struct LastJump {
    pub target: char,
    pub direction: JumpDirection,
}

/// A decimal digit of a numeric prefix.
pub open spec fn is_count_digit(c: char) -> bool {
    48 <= c as u32 <= 57
}

/// The numeric value of one digit.
pub open spec fn digit_val(c: char) -> int {
    c as u32 - 48
}

/// Every character of the buffer is a decimal digit.
pub open spec fn all_digits(s: Seq<char>) -> bool {
    forall|i: int| 0 <= i < s.len() ==> is_count_digit(#[trigger] s[i])
}

/// The decimal value a digit buffer denotes.
pub open spec fn digits_val(s: Seq<char>) -> int
    decreases s.len(),
{
    if s.len() == 0 {
        0
    } else {
        10 * digits_val(s.drop_last()) + digit_val(s.last())
    }
}

/// The repeat count a digit buffer stands for: an absent buffer, or one
/// whose value does not fit the machine, counts as one.
pub open spec fn effective_count(s: Seq<char>) -> int {
    if s.len() == 0 || digits_val(s) > usize::MAX as int {
        1
    } else {
        digits_val(s)
    }
}

/// Clamps a position into the index range of a list of length `len`.
pub open spec fn clamped(x: int, len: int) -> int {
    if x <= 0 {
        0
    } else if x >= len {
        len - 1
    } else {
        x
    }
}

/// The segment holds the character somewhere.
pub open spec fn seg_contains(seg: Seq<char>, c: char) -> bool {
    exists|i: int| 0 <= i < seg.len() && seg[i] == c
}

/// The index of the `n`-th segment at or after `i` that holds `c`, scanning
/// towards the end; `None` when fewer than `n` such segments exist.
pub open spec fn nth_match_forward(parts: Seq<Seq<char>>, i: int, c: char, n: int) -> Option<int>
    decreases parts.len() - i,
{
    if n <= 0 || i < 0 || i >= parts.len() {
        None
    } else if seg_contains(parts[i], c) {
        if n == 1 {
            Some(i)
        } else {
            nth_match_forward(parts, i + 1, c, n - 1)
        }
    } else {
        nth_match_forward(parts, i + 1, c, n)
    }
}

/// The index of the `n`-th segment at or before `i` that holds `c`,
/// scanning towards the start; `None` when fewer than `n` such segments
/// exist.
pub open spec fn nth_match_backward(parts: Seq<Seq<char>>, i: int, c: char, n: int) -> Option<int>
    decreases i + 1,
{
    if n <= 0 || i < 0 || i >= parts.len() {
        None
    } else if seg_contains(parts[i], c) {
        if n == 1 {
            Some(i)
        } else {
            nth_match_backward(parts, i - 1, c, n - 1)
        }
    } else {
        nth_match_backward(parts, i - 1, c, n)
    }
}

/// The display column at which segment `i` starts, each segment being as
/// wide as its character count.
pub open spec fn start_offset(parts: Seq<Seq<char>>, i: int) -> int
    decreases i,
{
    if i <= 0 {
        0
    } else {
        start_offset(parts, i - 1) + parts[i - 1].len()
    }
}

/// The largest index at most `i` whose start column is at most `col`,
/// falling back to the first segment.
pub open spec fn last_start_at_most(parts: Seq<Seq<char>>, col: int, i: int) -> int
    decreases i,
{
    if i <= 0 {
        0
    } else if start_offset(parts, i) <= col {
        i
    } else {
        last_start_at_most(parts, col, i - 1)
    }
}

/// Mathematical model of the selection state.
#[verifier::ext_equal]
pub struct SelView {
    pub parts: Seq<Seq<char>>,
    pub index: int,
    pub count: Seq<char>,
    pub jump: Option<LastJump>,
}

impl SelView {
    /// The invariant every operation preserves: the segment list is never
    /// empty, the index lies inside it, and the pending prefix holds only
    /// digits.
    pub open spec fn wf(self) -> bool {
        &&& 1 <= self.parts.len()
        &&& 0 <= self.index < self.parts.len()
        &&& all_digits(self.count)
    }

    /// Moving by `step`, multiplied by the pending count, clamped into the
    /// segment range; the pending count is consumed.
    pub open spec fn move_by(self, step: int) -> SelView {
        let c = effective_count(self.count);
        let n = if c < 1 {
            1
        } else {
            c
        };
        SelView {
            index: clamped(self.index + step * n, self.parts.len() as int),
            count: Seq::empty(),
            ..self
        }
    }

    /// Selecting the first segment; the pending count is consumed.
    pub open spec fn move_to_start(self) -> SelView {
        SelView { index: 0, count: Seq::empty(), ..self }
    }

    /// Selecting the last segment; the pending count is consumed.
    pub open spec fn move_to_end(self) -> SelView {
        SelView { index: self.parts.len() - 1, count: Seq::empty(), ..self }
    }

    /// Selecting the middle segment; the pending count is consumed.
    pub open spec fn move_to_middle(self) -> SelView {
        SelView { index: self.parts.len() as int / 2, count: Seq::empty(), ..self }
    }

    /// Appending one digit to the pending count.
    pub open spec fn push_digit(self, d: char) -> SelView {
        SelView { count: self.count.push(d), ..self }
    }

    /// Selecting the `n`-th segment holding `target` strictly beyond the
    /// current one in the given direction, `n` being the pending count;
    /// the selection is unchanged when fewer matches exist.  The pending
    /// count is consumed; the jump memory is not touched.
    pub open spec fn find_and_select(self, direction: JumpDirection, target: char) -> SelView {
        let n = effective_count(self.count);
        let found = match direction {
            JumpDirection::Forward => nth_match_forward(self.parts, self.index + 1, target, n),
            JumpDirection::Backward => nth_match_backward(self.parts, self.index - 1, target, n),
        };
        let idx = match found {
            Some(i) => i,
            None => self.index,
        };
        SelView { index: idx, count: Seq::empty(), ..self }
    }

    /// A character jump: the search of `find_and_select`, and the jump
    /// memory overwritten even when nothing was found.
    pub open spec fn jump_to(self, direction: JumpDirection, target: char) -> SelView {
        SelView {
            jump: Some(LastJump { target, direction }),
            ..self.find_and_select(direction, target)
        }
    }

    /// Repeating the remembered jump, reversed on demand; nothing happens
    /// when no jump is remembered.
    pub open spec fn repeat(self, reverse: bool) -> SelView {
        match self.jump {
            None => self,
            Some(lj) => {
                let d = if reverse {
                    lj.direction.spec_flip()
                } else {
                    lj.direction
                };
                self.find_and_select(d, lj.target)
            },
        }
    }

    /// Selecting the segment whose span covers the display column: the last
    /// segment whose start column is at most `col`.
    pub open spec fn select_at(self, col: int) -> SelView {
        SelView { index: last_start_at_most(self.parts, col, self.parts.len() - 1), ..self }
    }

    /// The reconstructed path: the segments up to and including the
    /// selected one, joined in order.
    pub open spec fn selected_path(self) -> Seq<char> {
        concat_all(self.parts.take(self.index + 1))
    }
}

/// The selection state: the decomposed path, the selected segment, the
/// pending numeric prefix, and the remembered character jump.
pub struct SelectionState {
    /// The display segments of the decomposed path, fixed after creation.
    pub path_parts: Vec<String>,
    /// The index of the selected segment.
    pub current_index: usize,
    /// The digits of the pending numeric prefix.
    pub count_input: Vec<char>,
    /// The most recent character jump, if any.
    pub last_jump: Option<LastJump>,
}

impl View for SelectionState {
    type V = SelView;

    open spec fn view(&self) -> SelView {
        SelView {
            parts: self.path_parts.deep_view(),
            index: self.current_index as int,
            count: self.count_input@,
            jump: self.last_jump,
        }
    }
}

/// Dropping the last digit keeps the buffer's digits.
proof fn lemma_all_digits_drop_last(s: Seq<char>)
    requires
        all_digits(s),
        s.len() > 0,
    ensures
        all_digits(s.drop_last()),
{
    assert forall|i: int| 0 <= i < s.drop_last().len() implies is_count_digit(
        #[trigger] s.drop_last()[i],
    ) by {
        assert(s.drop_last()[i] == s[i]);
    }
}

/// A digit buffer never denotes a negative value.
proof fn lemma_digits_val_nonneg(s: Seq<char>)
    requires
        all_digits(s),
    ensures
        digits_val(s) >= 0,
    decreases s.len(),
{
    if s.len() > 0 {
        lemma_all_digits_drop_last(s);
        lemma_digits_val_nonneg(s.drop_last());
    }
}

/// Reading more digits never lowers the value.
proof fn lemma_digits_val_prefix_le(s: Seq<char>, i: int)
    requires
        all_digits(s),
        0 <= i <= s.len(),
    ensures
        digits_val(s.take(i)) <= digits_val(s),
    decreases s.len() - i,
{
    if i < s.len() {
        assert forall|k: int| 0 <= k < s.take(i).len() implies is_count_digit(
            #[trigger] s.take(i)[k],
        ) by {
            assert(s.take(i)[k] == s[k]);
        }
        lemma_digits_val_nonneg(s.take(i));
        assert(s.take(i + 1).drop_last() =~= s.take(i));
        assert(s.take(i + 1).last() == s[i]);
        assert(digits_val(s.take(i + 1)) == 10 * digits_val(s.take(i)) + digit_val(s[i]));
        lemma_digits_val_prefix_le(s, i + 1);
    } else {
        assert(s.take(i) =~= s);
    }
}

/// Whether a character is a decimal digit.
fn is_digit_char(c: char) -> (r: bool)
    ensures
        r == is_count_digit(c),
{
    let u: u32 = c as u32;
    48 <= u && u <= 57
}

/// The repeat count the digit buffer stands for.
#[verifier::loop_isolation(false)]
fn parse_count(digits: &Vec<char>) -> (r: usize)
    requires
        all_digits(digits@),
    ensures
        r == effective_count(digits@),
{
    let n: usize = digits.len();
    if n == 0 {
        return 1;
    }
    let mut acc: usize = 0;
    let mut i: usize = 0;
    proof {
        assert(digits@.take(0) =~= Seq::<char>::empty());
    }
    while i < n
        invariant
            n == digits@.len(),
            all_digits(digits@),
            i <= n,
            acc == digits_val(digits@.take(i as int)),
        decreases n - i,
    {
        let c = digits[i];
        let d: usize = (c as u32 - 48) as usize;
        proof {
            assert(is_count_digit(digits@[i as int]));
            assert(digits@.take(i + 1).drop_last() =~= digits@.take(i as int));
            assert(digits@.take(i + 1).last() == digits@[i as int]);
        }
        let stepped = match acc.checked_mul(10) {
            Some(m) => m.checked_add(d),
            None => None,
        };
        match stepped {
            Some(v) => {
                acc = v;
            },
            None => {
                proof {
                    assert(digits_val(digits@.take(i + 1)) > usize::MAX as int);
                    lemma_digits_val_prefix_le(digits@, i + 1);
                }
                return 1;
            },
        }
        i += 1;
    }
    proof {
        assert(digits@.take(n as int) =~= digits@);
    }
    acc
}

/// Whether the string holds the character somewhere.
#[verifier::loop_isolation(false)]
fn str_contains_char(s: &str, c: char) -> (r: bool)
    ensures
        r == seg_contains(s@, c),
{
    let n: usize = s.unicode_len();
    let mut i: usize = 0;
    while i < n
        invariant
            n == s@.len(),
            i <= n,
            forall|j: int| 0 <= j < i ==> s@[j] != c,
        decreases n - i,
    {
        if s.get_char(i) == c {
            return true;
        }
        i += 1;
    }
    false
}

impl SelectionState {
    /// A fresh state over the given segments, the last one selected.
    pub fn new(path_parts: Vec<String>) -> (s: Self)
        requires
            path_parts@.len() >= 1,
        ensures
            s@.parts == path_parts.deep_view(),
            s@.index == path_parts@.len() - 1,
            s@.count == Seq::<char>::empty(),
            s@.jump == Option::<LastJump>::None,
            s@.wf(),
    {
        let current_index: usize = path_parts.len() - 1;
        SelectionState { path_parts, current_index, count_input: Vec::new(), last_jump: None }
    }

    /// Whether the invariant holds; lets an unverified caller check a state
    /// it assembled by hand.
    #[verifier::loop_isolation(false)]
    pub fn is_well_formed(&self) -> (r: bool)
        ensures
            r == self@.wf(),
    {
        if self.path_parts.len() < 1 {
            return false;
        }
        if self.current_index >= self.path_parts.len() {
            return false;
        }
        let n: usize = self.count_input.len();
        let mut i: usize = 0;
        while i < n
            invariant
                n == self.count_input@.len(),
                i <= n,
                forall|j: int| 0 <= j < i ==> is_count_digit(#[trigger] self.count_input@[j]),
            decreases n - i,
        {
            if !is_digit_char(self.count_input[i]) {
                return false;
            }
            i += 1;
        }
        true
    }

    /// Moves the selection by `step` segments, multiplied by the pending
    /// count and clamped to the segment range.
    pub fn move_by(&mut self, step: isize)
        requires
            old(self)@.wf(),
        ensures
            final(self)@ == old(self)@.move_by(step as int),
            final(self)@.wf(),
    {
        let count: usize = parse_count(&self.count_input);
        let n: usize = if count < 1 {
            1
        } else {
            count
        };
        let len: usize = self.path_parts.len();
        let last: usize = len - 1;
        let ghost target = clamped(self@.index + step as int * n as int, len as int);
        let new_index: usize;
        if step >= 0 {
            let s: usize = step as usize;
            assert(s as int == step as int);
            match s.checked_mul(n) {
                Some(d) => {
                    assert(d as int == step as int * n as int);
                    match self.current_index.checked_add(d) {
                        Some(t) => {
                            new_index = if t > last {
                                last
                            } else {
                                t
                            };
                        },
                        None => {
                            new_index = last;
                        },
                    }
                },
                None => {
                    proof {
                        assert(step as int * n as int > usize::MAX as int);
                    }
                    new_index = last;
                },
            }
        } else {
            let m: usize = if step == isize::MIN {
                (isize::MAX as usize) + 1
            } else {
                (-step) as usize
            };
            assert(m as int == -(step as int));
            match m.checked_mul(n) {
                Some(d) => {
                    proof {
                        assert(step as int * n as int == -(d as int)) by (nonlinear_arith)
                            requires
                                m as int == -(step as int),
                                d as int == m as int * n as int,
                        ;
                    }
                    new_index = if d > self.current_index {
                        0
                    } else {
                        self.current_index - d
                    };
                },
                None => {
                    proof {
                        assert(m as int * n as int > usize::MAX as int);
                        assert(step as int * n as int <= -(m as int * n as int))
                            by (nonlinear_arith)
                            requires
                                m as int == -(step as int),
                        ;
                    }
                    new_index = 0;
                },
            }
        }
        assert(new_index as int == target);
        self.current_index = new_index;
        self.count_input.clear();
        proof {
            assert(self@ =~= old(self)@.move_by(step as int));
        }
    }

    /// Selects the first segment.
    pub fn move_to_start(&mut self)
        requires
            old(self)@.wf(),
        ensures
            final(self)@ == old(self)@.move_to_start(),
            final(self)@.wf(),
    {
        self.current_index = 0;
        self.count_input.clear();
        proof {
            assert(self@ =~= old(self)@.move_to_start());
        }
    }

    /// Selects the last segment.
    pub fn move_to_end(&mut self)
        requires
            old(self)@.wf(),
        ensures
            final(self)@ == old(self)@.move_to_end(),
            final(self)@.wf(),
    {
        self.current_index = self.path_parts.len() - 1;
        self.count_input.clear();
        proof {
            assert(self@ =~= old(self)@.move_to_end());
        }
    }

    /// Selects the middle segment.
    pub fn move_to_middle(&mut self)
        requires
            old(self)@.wf(),
        ensures
            final(self)@ == old(self)@.move_to_middle(),
            final(self)@.wf(),
    {
        self.current_index = self.path_parts.len() / 2;
        self.count_input.clear();
        proof {
            assert(self@ =~= old(self)@.move_to_middle());
        }
    }

    /// Appends one digit to the pending numeric prefix.
    pub fn push_digit(&mut self, d: char)
        requires
            old(self)@.wf(),
            is_count_digit(d),
        ensures
            final(self)@ == old(self)@.push_digit(d),
            final(self)@.wf(),
    {
        self.count_input.push(d);
        proof {
            assert(self@ =~= old(self)@.push_digit(d));
        }
    }

    /// Selects the `n`-th segment beyond the current one, in the given
    /// direction, that holds `target_char`; `n` is the pending count, which
    /// is consumed.  The selection stays put when fewer matches exist.
    #[verifier::loop_isolation(false)]
    pub fn find_and_select_char_match(&mut self, direction: JumpDirection, target_char: char)
        requires
            old(self)@.wf(),
        ensures
            final(self)@ == old(self)@.find_and_select(direction, target_char),
            final(self)@.wf(),
    {
        let ghost v0 = self@;
        let count: usize = parse_count(&self.count_input);
        self.count_input.clear();
        let ghost n0: int = count as int;
        let len: usize = self.path_parts.len();
        let mut found_count: usize = 0;
        match direction {
            JumpDirection::Forward => {
                let mut i: usize = self.current_index + 1;
                while i < len
                    invariant
                        self@ =~= (SelView { count: Seq::empty(), ..v0 }),
                        v0.index + 1 <= i as int <= len,
                        found_count as int <= i as int - (v0.index + 1),
                        n0 >= 1 ==> found_count as int <= n0 - 1,
                        nth_match_forward(v0.parts, v0.index + 1, target_char, n0)
                            == nth_match_forward(v0.parts, i as int, target_char, n0 - found_count),
                    decreases len - i,
                {
                    let ghost m = n0 - found_count;
                    let has = str_contains_char(self.path_parts[i].as_str(), target_char);
                    assert(v0.parts[i as int] == self.path_parts@[i as int]@);
                    assert(has == seg_contains(v0.parts[i as int], target_char));
                    if has {
                        found_count += 1;
                        if found_count == count {
                            self.current_index = i;
                            proof {
                                assert(m == 1);
                                assert(nth_match_forward(v0.parts, i as int, target_char, 1)
                                    == Some(i as int));
                                assert(self@ =~= v0.find_and_select(direction, target_char));
                            }
                            return ;
                        }
                        proof {
                            if n0 >= 1 {
                                assert(m >= 2);
                                assert(nth_match_forward(v0.parts, i as int, target_char, m)
                                    == nth_match_forward(v0.parts, i + 1, target_char, m - 1));
                            } else {
                                assert(m <= 0);
                                assert(nth_match_forward(v0.parts, i as int, target_char, m)
                                    is None);
                                assert(nth_match_forward(v0.parts, i + 1, target_char, m - 1)
                                    is None);
                            }
                        }
                    } else {
                        proof {
                            assert(nth_match_forward(v0.parts, i as int, target_char, m)
                                == nth_match_forward(v0.parts, i + 1, target_char, m));
                        }
                    }
                    i += 1;
                }
                proof {
                    assert(nth_match_forward(v0.parts, len as int, target_char, n0 - found_count)
                        is None);
                    assert(self@ =~= v0.find_and_select(direction, target_char));
                }
            },
            JumpDirection::Backward => {
                let mut i: usize = self.current_index;
                while i > 0
                    invariant
                        self@ =~= (SelView { count: Seq::empty(), ..v0 }),
                        0 <= i as int <= v0.index,
                        found_count as int <= v0.index - i as int,
                        n0 >= 1 ==> found_count as int <= n0 - 1,
                        nth_match_backward(v0.parts, v0.index - 1, target_char, n0)
                            == nth_match_backward(v0.parts, i - 1, target_char, n0 - found_count),
                    decreases i,
                {
                    let ghost m = n0 - found_count;
                    i -= 1;
                    let has = str_contains_char(self.path_parts[i].as_str(), target_char);
                    assert(v0.parts[i as int] == self.path_parts@[i as int]@);
                    assert(has == seg_contains(v0.parts[i as int], target_char));
                    if has {
                        found_count += 1;
                        if found_count == count {
                            self.current_index = i;
                            proof {
                                assert(m == 1);
                                assert(nth_match_backward(v0.parts, i as int, target_char, 1)
                                    == Some(i as int));
                                assert(self@ =~= v0.find_and_select(direction, target_char));
                            }
                            return ;
                        }
                        proof {
                            if n0 >= 1 {
                                assert(m >= 2);
                                assert(nth_match_backward(v0.parts, i as int, target_char, m)
                                    == nth_match_backward(v0.parts, i - 1, target_char, m - 1));
                            } else {
                                assert(m <= 0);
                                assert(nth_match_backward(v0.parts, i as int, target_char, m)
                                    is None);
                                assert(nth_match_backward(v0.parts, i - 1, target_char, m - 1)
                                    is None);
                            }
                        }
                    } else {
                        proof {
                            assert(nth_match_backward(v0.parts, i as int, target_char, m)
                                == nth_match_backward(v0.parts, i - 1, target_char, m));
                        }
                    }
                }
                proof {
                    assert(nth_match_backward(v0.parts, -1, target_char, n0 - found_count)
                        is None);
                    assert(self@ =~= v0.find_and_select(direction, target_char));
                }
            },
        }
    }

    /// A character jump: searches like `find_and_select_char_match`, then
    /// overwrites the jump memory even when nothing was found.
    pub fn jump_to_char(&mut self, direction: JumpDirection, target_char: char)
        requires
            old(self)@.wf(),
        ensures
            final(self)@ == old(self)@.jump_to(direction, target_char),
            final(self)@.wf(),
    {
        self.find_and_select_char_match(direction, target_char);
        self.last_jump = Some(LastJump { target: target_char, direction });
        proof {
            assert(self@ =~= old(self)@.jump_to(direction, target_char));
        }
    }

    /// Repeats the remembered jump, reversed when `reverse` holds, with the
    /// current pending count; does nothing when no jump is remembered.
    pub fn repeat_jump(&mut self, reverse: bool)
        requires
            old(self)@.wf(),
        ensures
            final(self)@ == old(self)@.repeat(reverse),
            final(self)@.wf(),
    {
        match self.last_jump {
            None => {},
            Some(lj) => {
                let d = if reverse {
                    lj.direction.flip()
                } else {
                    lj.direction
                };
                self.find_and_select_char_match(d, lj.target);
            },
        }
    }

    /// Selects the segment covering the given display column, each segment
    /// as wide as its character count; a column past the end resolves to
    /// the last segment, one before any text to the first.
    #[verifier::loop_isolation(false)]
    pub fn select_part_at_column(&mut self, column: u16)
        requires
            old(self)@.wf(),
        ensures
            final(self)@ == old(self)@.select_at(column as int),
            final(self)@.wf(),
    {
        let ghost v0 = self@;
        let col: u128 = column as u128;
        let len: usize = self.path_parts.len();
        let mut pos: u128 = 0;
        let mut new_index: usize = 0;
        let mut i: usize = 0;
        while i < len
            invariant
                self@ == v0,
                len == v0.parts.len(),
                i <= len,
                col == column as int,
                pos as int == start_offset(v0.parts, i as int),
                pos as int <= (i as int) * (usize::MAX as int),
                new_index as int == if i == 0 {
                    0int
                } else {
                    last_start_at_most(v0.parts, column as int, i - 1)
                },
                new_index < len || i == 0,
            decreases len - i,
        {
            if pos <= col {
                new_index = i;
                assert(last_start_at_most(v0.parts, column as int, i as int) == i as int);
            } else {
                assert(i > 0);
                assert(last_start_at_most(v0.parts, column as int, i as int)
                    == last_start_at_most(v0.parts, column as int, i - 1));
            }
            let w: usize = self.path_parts[i].as_str().unicode_len();
            proof {
                assert(pos as int + w as int <= (i as int + 1) * (usize::MAX as int))
                    by (nonlinear_arith)
                    requires
                        pos as int <= (i as int) * (usize::MAX as int),
                        w as int <= usize::MAX as int,
                        i as int >= 0,
                ;
                assert((i as int + 1) * (usize::MAX as int) < u128::MAX as int)
                    by (nonlinear_arith)
                    requires
                        i as int + 1 <= u64::MAX as int,
                ;
            }
            pos = pos + (w as u128);
            i += 1;
        }
        self.current_index = new_index;
        proof {
            assert(self@ =~= v0.select_at(column as int));
        }
    }

    /// The reconstructed path: the segments up to and including the
    /// selected one, joined in order.
    #[verifier::loop_isolation(false)]
    pub fn selected_path(&self) -> (r: String)
        requires
            self@.wf(),
        ensures
            r@ == self@.selected_path(),
    {
        let mut r = String::new();
        let len: usize = self.path_parts.len();
        assert(self@.index < len);
        let end: usize = self.current_index + 1;
        let mut i: usize = 0;
        proof {
            assert(self@.parts.take(0) =~= Seq::<Seq<char>>::empty());
        }
        while i < end
            invariant
                end <= self@.parts.len(),
                end == self@.index + 1,
                self@.parts == self.path_parts.deep_view(),
                i <= end,
                r@ == concat_all(self@.parts.take(i as int)),
            decreases end - i,
        {
            r.append(self.path_parts[i].as_str());
            proof {
                assert(self@.parts.take(i + 1) =~= self@.parts.take(i as int).push(
                    self@.parts[i as int],
                ));
                crate::path_split::lemma_concat_all_push(
                    self@.parts.take(i as int),
                    self@.parts[i as int],
                );
            }
            i += 1;
        }
        r
    }
}

/// Law: moving to the start twice in a row is the same as doing it once.
pub proof fn lemma_move_to_start_idempotent(v: SelView)
    ensures
        v.move_to_start().move_to_start() == v.move_to_start(),
{
    assert(v.move_to_start().move_to_start() =~= v.move_to_start());
}

/// Law: selecting by the same column twice in a row is the same as doing
/// it once.
pub proof fn lemma_select_at_idempotent(v: SelView, col: int)
    ensures
        v.select_at(col).select_at(col) == v.select_at(col),
{
    assert(v.select_at(col).select_at(col) =~= v.select_at(col));
}

} // verus!
