//! The start-time field of the terminal screen: the text typed so far, as
//! seconds with at most two decimals.

use vstd::prelude::*;
use crate::text::{decimal, is_ascii_digit_spec, push_decimal, string_from_chars};

verus! {

/// The most bytes the start-time text takes once edited.
pub const MAX_START_INPUT_CHARS: usize = 7;

/// The number of bytes UTF-8 takes for `c`.
pub open spec fn utf8_width(c: char) -> nat {
    if c <= '\u{7f}' {
        1
    } else if c <= '\u{7ff}' {
        2
    } else if c <= '\u{ffff}' {
        3
    } else {
        4
    }
}

/// The number of bytes UTF-8 takes for `s` (`str::len`).
pub open spec fn utf8_len(s: Seq<char>) -> nat
    decreases s.len(),
{
    if s.len() == 0 {
        0
    } else {
        utf8_len(s.drop_last()) + utf8_width(s.last())
    }
}

/// What follows the first `.` of `s`, if it has one.
pub open spec fn after_first_dot(s: Seq<char>) -> Option<Seq<char>>
    decreases s.len(),
{
    if s.len() == 0 {
        None
    } else if s[0] == '.' {
        Some(s.drop_first())
    } else {
        after_first_dot(s.drop_first())
    }
}

/// The number of bytes after the first `.` of `s`; zero without one.
pub open spec fn decimals_spec(s: Seq<char>) -> nat {
    match after_first_dot(s) {
        Some(t) => utf8_len(t),
        None => 0,
    }
}

/// The mathematical form of a [`StartInput`].
pub struct StartInputModel {
    pub track_id: Seq<char>,
    pub text: Seq<char>,
    /// Whether the text is still the one the field opened with; the first
    /// edit clears it.
    pub pristine: bool,
}

/// The field ready for an edit: an untouched text is cleared.
pub open spec fn prepared(m: StartInputModel) -> StartInputModel {
    if m.pristine {
        StartInputModel { text: Seq::empty(), pristine: false, ..m }
    } else {
        m
    }
}

/// The field after typing the digit `d`: refused once the text has
/// [`MAX_START_INPUT_CHARS`] bytes or two decimals.
pub open spec fn push_digit_spec(m: StartInputModel, d: char) -> StartInputModel {
    let p = prepared(m);
    if utf8_len(p.text) >= MAX_START_INPUT_CHARS || decimals_spec(p.text) >= 2 {
        p
    } else {
        StartInputModel { text: p.text.push(d), ..p }
    }
}

/// The field after typing the decimal separator: refused when the text has
/// one or is full; an empty text becomes `0.`.
pub open spec fn push_separator_spec(m: StartInputModel) -> StartInputModel {
    let p = prepared(m);
    if p.text.contains('.') || utf8_len(p.text) >= MAX_START_INPUT_CHARS {
        p
    } else if p.text.len() == 0 {
        StartInputModel { text: seq!['0', '.'], ..p }
    } else {
        StartInputModel { text: p.text.push('.'), ..p }
    }
}

/// The field after a backspace: the last character goes.
pub open spec fn backspace_spec(m: StartInputModel) -> StartInputModel {
    let p = prepared(m);
    if p.text.len() == 0 {
        p
    } else {
        StartInputModel { text: p.text.drop_last(), ..p }
    }
}

/// What the field shows: the text, or `00.00` when it is empty.
pub open spec fn display_spec(m: StartInputModel) -> Seq<char> {
    if m.text.len() == 0 {
        "00.00"@
    } else {
        m.text
    }
}

/// Two decimal digits of `n`, zero-padded on the left (`{:02}`).
pub open spec fn two_digits(n: nat) -> Seq<char> {
    if n < 10 {
        seq!['0'] + decimal(n)
    } else {
        decimal(n)
    }
}

/// A time in hundredths of a second as `SS.CC`: whole seconds padded to
/// two digits, a dot, and two digits of hundredths.
pub open spec fn centiseconds_text(cs: nat) -> Seq<char> {
    two_digits(cs / 100) + seq!['.'] + two_digits(cs % 100)
}

/// The start-time field of the track `track_id`.
#[derive(Debug)]
pub struct StartInput {
    track_id: String,
    text: Vec<char>,
    pristine: bool,
}

impl View for StartInput {
    type V = StartInputModel;

    closed spec fn view(&self) -> StartInputModel {
        StartInputModel { track_id: self.track_id@, text: self.text@, pristine: self.pristine }
    }
}

proof fn lemma_utf8_len_bound(s: Seq<char>)
    ensures
        s.len() <= utf8_len(s) <= 4 * s.len(),
    decreases s.len(),
{
    if s.len() > 0 {
        lemma_utf8_len_bound(s.drop_last());
    }
}

proof fn lemma_utf8_len_step(s: Seq<char>, k: int, j: int)
    requires
        0 <= k <= j < s.len(),
    ensures
        utf8_len(s.subrange(k, j + 1)) == utf8_len(s.subrange(k, j)) + utf8_width(s[j]),
{
    assert(s.subrange(k, j + 1).drop_last() =~= s.subrange(k, j));
}

fn char_width(c: char) -> (r: usize)
    ensures
        r == utf8_width(c),
{
    if c <= '\u{7f}' {
        1
    } else if c <= '\u{7ff}' {
        2
    } else if c <= '\u{ffff}' {
        3
    } else {
        4
    }
}

/// The UTF-8 length of the characters of `v` from `k` on.
fn utf8_len_from(v: &Vec<char>, k: usize) -> (r: usize)
    requires
        k <= v.len() <= 64,
    ensures
        r == utf8_len(v@.subrange(k as int, v.len() as int)),
{
    let mut total: usize = 0;
    let mut j: usize = k;
    proof {
        assert(v@.subrange(k as int, k as int) =~= Seq::<char>::empty());
    }
    while j < v.len()
        invariant
            k <= j <= v.len() <= 64,
            total == utf8_len(v@.subrange(k as int, j as int)),
            total <= 4 * (j - k),
        decreases v.len() - j,
    {
        proof {
            lemma_utf8_len_step(v@, k as int, j as int);
        }
        total = total + char_width(v[j]);
        j += 1;
    }
    total
}

proof fn lemma_after_first_dot_skip(s: Seq<char>, i: int)
    requires
        0 <= i <= s.len(),
        forall|j: int| 0 <= j < i ==> s[j] != '.',
    ensures
        after_first_dot(s) == after_first_dot(s.subrange(i, s.len() as int)),
    decreases i,
{
    if i > 0 {
        lemma_after_first_dot_skip(s.drop_first(), i - 1);
        assert(s.drop_first().subrange(i - 1, s.len() - 1) =~= s.subrange(i, s.len() as int));
    } else {
        assert(s.subrange(0, s.len() as int) =~= s);
    }
}

/// Typing `c` after `s` extends what follows its first dot.
proof fn lemma_after_first_dot_push(s: Seq<char>, c: char)
    ensures
        after_first_dot(s.push(c)) == (match after_first_dot(s) {
            Some(t) => Some(t.push(c)),
            None => if c == '.' {
                Some(Seq::<char>::empty())
            } else {
                None
            },
        }),
    decreases s.len(),
{
    if s.len() == 0 {
        assert(s.push(c).drop_first() =~= Seq::<char>::empty());
        assert(after_first_dot(Seq::<char>::empty()) is None);
        assert(s.push(c)[0] == c);
    } else {
        assert(s.push(c).drop_first() =~= s.drop_first().push(c));
        assert(s.push(c)[0] == s[0]);
        if s[0] != '.' {
            lemma_after_first_dot_push(s.drop_first(), c);
            assert(after_first_dot(s.push(c)) == after_first_dot(s.drop_first().push(c)));
            assert(after_first_dot(s) == after_first_dot(s.drop_first()));
        }
    }
}

proof fn lemma_no_dot(s: Seq<char>)
    requires
        !s.contains('.'),
    ensures
        after_first_dot(s) is None,
    decreases s.len(),
{
    if s.len() > 0 {
        assert(s[0] != '.');
        assert forall|j: int| 0 <= j < s.drop_first().len() implies s.drop_first()[j] != '.' by {
            assert(s.drop_first()[j] == s[j + 1]);
        }
        lemma_no_dot(s.drop_first());
    }
}

/// A copy of `v` with `c` added at the end.
fn pushed(v: &Vec<char>, c: char) -> (r: Vec<char>)
    ensures
        r@ == v@.push(c),
{
    let mut w = v.clone();
    proof {
        assert forall|i: int| 0 <= i < v.len() implies w@[i] == v@[i] by {
            assert(cloned::<char>(v[i], w[i]));
        }
        assert(w@ =~= v@);
    }
    w.push(c);
    w
}

/// A copy of `v`.
fn copied(v: &Vec<char>) -> (r: Vec<char>)
    ensures
        r@ == v@,
{
    let w = v.clone();
    proof {
        assert forall|i: int| 0 <= i < v.len() implies w@[i] == v@[i] by {
            assert(cloned::<char>(v[i], w[i]));
        }
        assert(w@ =~= v@);
    }
    w
}

/// A copy of `v` without its last element.
fn popped(v: &Vec<char>) -> (r: Vec<char>)
    requires
        v.len() > 0,
    ensures
        r@ == v@.drop_last(),
{
    let mut w = v.clone();
    proof {
        assert forall|i: int| 0 <= i < v.len() implies w@[i] == v@[i] by {
            assert(cloned::<char>(v[i], w[i]));
        }
        assert(w@ =~= v@);
    }
    w.pop();
    proof {
        assert(w@ =~= v@.drop_last());
    }
    w
}

impl StartInput {
    #[verifier::type_invariant]
    spec fn short(&self) -> bool {
        self.text@.len() <= 48
    }

    /// The field for the track `track_id`, opened on its current start time
    /// in hundredths of a second, shown as `SS.CC`.
    pub fn from_centiseconds(track_id: String, centiseconds: u64) -> (r: StartInput)
        ensures
            r@ == (StartInputModel {
                track_id: track_id@,
                text: centiseconds_text(centiseconds as nat),
                pristine: true,
            }),
    {
        let s = format_centiseconds(centiseconds);
        let mut text: Vec<char> = Vec::new();
        let chars = crate::text::chars_of(s.as_str());
        proof {
            crate::text::lemma_decimal_len_bound(centiseconds as nat / 100);
            crate::text::lemma_decimal_len_bound(centiseconds as nat % 100);
        }
        let mut i: usize = 0;
        while i < chars.len()
            invariant
                i <= chars.len(),
                chars@ == s@,
                chars@.len() <= 48,
                text@ == chars@.take(i as int),
            decreases chars.len() - i,
        {
            text.push(chars[i]);
            proof {
                assert(text@ =~= chars@.take(i + 1));
            }
            i += 1;
        }
        proof {
            assert(text@ =~= chars@);
        }
        StartInput { track_id, text, pristine: true }
    }

    /// The id of the track whose start time is edited.
    pub fn track_id(&self) -> (r: String)
        ensures
            r@ == self@.track_id,
    {
        self.track_id.clone()
    }

    /// The text typed so far.
    pub fn text(&self) -> (r: String)
        ensures
            r@ == self@.text,
    {
        string_from_chars(&self.text)
    }

    /// Clears the text the field opened with, on the first edit.
    pub fn prepare_for_edit(&mut self)
        ensures
            final(self)@ == prepared(old(self)@),
    {
        if self.pristine {
            self.text = Vec::new();
            self.pristine = false;
        }
    }

    /// The number of bytes after the first `.` of the text.
    pub fn decimal_digits(&self) -> (r: usize)
        ensures
            r == decimals_spec(self@.text),
    {
        proof {
            use_type_invariant(self);
        }
        let n = self.text.len();
        let mut i: usize = 0;
        while i < n && self.text[i] != '.'
            invariant
                n == self.text@.len() <= 48,
                i <= n,
                forall|j: int| 0 <= j < i ==> self.text@[j] != '.',
            decreases n - i,
        {
            i += 1;
        }
        proof {
            lemma_after_first_dot_skip(self.text@, i as int);
        }
        if i == n {
            proof {
                assert(self.text@.subrange(i as int, n as int) =~= Seq::<char>::empty());
            }
            0
        } else {
            proof {
                let rest = self.text@.subrange(i as int, n as int);
                assert(rest[0] == '.');
                assert(rest.drop_first() =~= self.text@.subrange(i + 1, n as int));
            }
            utf8_len_from(&self.text, i + 1)
        }
    }

    fn byte_len(&self) -> (r: usize)
        ensures
            r == utf8_len(self@.text),
    {
        proof {
            use_type_invariant(self);
            assert(self.text@.subrange(0, self.text@.len() as int) =~= self.text@);
        }
        utf8_len_from(&self.text, 0)
    }

    fn has_separator(&self) -> (r: bool)
        ensures
            r == self@.text.contains('.'),
    {
        let mut i: usize = 0;
        while i < self.text.len()
            invariant
                i <= self.text.len(),
                forall|j: int| 0 <= j < i ==> self.text@[j] != '.',
            decreases self.text.len() - i,
        {
            if self.text[i] == '.' {
                return true;
            }
            i += 1;
        }
        false
    }

    /// Types the digit `digit`, unless the text is full or has two
    /// decimals.
    pub fn push_digit(&mut self, digit: char)
        ensures
            final(self)@ == push_digit_spec(old(self)@, digit),
    {
        self.prepare_for_edit();
        if self.byte_len() >= MAX_START_INPUT_CHARS || self.decimal_digits() >= 2 {
            return;
        }
        proof {
            use_type_invariant(&*self);
            lemma_utf8_len_bound(self.text@);
        }
        self.text = pushed(&self.text, digit);
    }

    /// Types the decimal separator, unless the text has one or is full; an
    /// empty text becomes `0.`.
    pub fn push_decimal_separator(&mut self)
        ensures
            final(self)@ == push_separator_spec(old(self)@),
    {
        self.prepare_for_edit();
        if self.has_separator() || self.byte_len() >= MAX_START_INPUT_CHARS {
            return;
        }
        proof {
            use_type_invariant(&*self);
            lemma_utf8_len_bound(self.text@);
        }
        if self.text.len() == 0 {
            self.text = vec!['0', '.'];
            proof {
                assert(self.text@ =~= seq!['0', '.']);
            }
        } else {
            self.text = pushed(&self.text, '.');
        }
    }

    /// Deletes the last character.
    pub fn backspace(&mut self)
        ensures
            final(self)@ == backspace_spec(old(self)@),
    {
        self.prepare_for_edit();
        proof {
            use_type_invariant(&*self);
        }
        if self.text.len() > 0 {
            self.text = popped(&self.text);
        }
    }

    /// What the field shows: the text, or `00.00` when it is empty.
    pub fn display_value(&self) -> (r: String)
        ensures
            r@ == display_spec(self@),
    {
        if self.text.len() == 0 {
            String::from_str("00.00")
        } else {
            string_from_chars(&self.text)
        }
    }
}

impl Clone for StartInput {
    fn clone(&self) -> (r: StartInput)
        ensures
            r@ == self@,
    {
        proof {
            use_type_invariant(self);
        }
        StartInput { track_id: self.track_id.clone(), text: copied(&self.text), pristine: self.pristine }
    }
}

/// A time in hundredths of a second as `SS.CC` (`{:02}.{:02}`).
pub fn format_centiseconds(centiseconds: u64) -> (r: String)
    ensures
        r@ == centiseconds_text(centiseconds as nat),
{
    let mut s = String::new();
    let whole = centiseconds / 100;
    let part = centiseconds % 100;
    if whole < 10 {
        crate::text::push_char(&mut s, '0');
    }
    push_decimal(&mut s, whole as u128);
    crate::text::push_char(&mut s, '.');
    if part < 10 {
        crate::text::push_char(&mut s, '0');
    }
    push_decimal(&mut s, part as u128);
    proof {
        assert(s@ =~= centiseconds_text(centiseconds as nat));
    }
    s
}

/// A start-time text that editing keeps well-formed: empty, or digits,
/// optionally followed by one dot and at most two digits; at most
/// [`MAX_START_INPUT_CHARS`] bytes, and so at most that many characters.
pub open spec fn well_formed_text(s: Seq<char>) -> bool {
    &&& utf8_len(s) <= MAX_START_INPUT_CHARS
    &&& s.len() <= MAX_START_INPUT_CHARS
    &&& s.len() > 0 ==> s[0] != '.'
    &&& forall|i: int| 0 <= i < s.len() ==> is_ascii_digit_spec(#[trigger] s[i]) || s[i] == '.'
    &&& forall|i: int, j: int| 0 <= i < j < s.len() && s[i] == '.' ==> s[j] != '.'
    &&& decimals_spec(s) <= 2
}

} // verus!

verus! {

proof fn lemma_utf8_len_push(s: Seq<char>, c: char)
    ensures
        utf8_len(s.push(c)) == utf8_len(s) + utf8_width(c),
{
    assert(s.push(c).drop_last() =~= s);
}

/// Typing a digit keeps an edited start time well-formed: at most
/// [`MAX_START_INPUT_CHARS`] bytes, digits and one dot, at most two
/// decimals.
pub proof fn lemma_push_digit_keeps_well_formed(m: StartInputModel, d: char)
    requires
        m.pristine || well_formed_text(m.text),
        is_ascii_digit_spec(d),
    ensures
        well_formed_text(push_digit_spec(m, d).text),
{
    let p = prepared(m);
    if p.text.len() == 0 {
        assert(utf8_len(p.text) == 0);
        assert(after_first_dot(p.text) is None);
        assert(decimals_spec(p.text) == 0);
    }
    assert(well_formed_text(p.text));
    if !(utf8_len(p.text) >= MAX_START_INPUT_CHARS || decimals_spec(p.text) >= 2) {
        let t = p.text.push(d);
        lemma_utf8_len_push(p.text, d);
        lemma_utf8_len_bound(t);
        assert(t[0] != '.') by {
            if p.text.len() > 0 {
                assert(t[0] == p.text[0]);
            }
        }
        lemma_after_first_dot_push(p.text, d);
        match after_first_dot(p.text) {
            Some(u) => lemma_utf8_len_push(u, d),
            None => {},
        }
        assert forall|i: int| 0 <= i < t.len() implies is_ascii_digit_spec(#[trigger] t[i]) || t[i]
            == '.' by {
            if i < p.text.len() {
                assert(t[i] == p.text[i]);
            }
        }
        assert forall|i: int, j: int| 0 <= i < j < t.len() && t[i] == '.' implies t[j] != '.' by {
            if j < p.text.len() {
                assert(t[i] == p.text[i] && t[j] == p.text[j]);
            }
        }
    }
}

/// Typing the separator keeps an edited start time well-formed.
pub proof fn lemma_push_separator_keeps_well_formed(m: StartInputModel)
    requires
        m.pristine || well_formed_text(m.text),
    ensures
        well_formed_text(push_separator_spec(m).text),
{
    let p = prepared(m);
    if p.text.len() == 0 {
        assert(utf8_len(p.text) == 0);
        assert(after_first_dot(p.text) is None);
        assert(decimals_spec(p.text) == 0);
    }
    assert(well_formed_text(p.text));
    if !(p.text.contains('.') || utf8_len(p.text) >= MAX_START_INPUT_CHARS) {
        if p.text.len() == 0 {
            let t = seq!['0', '.'];
            assert(t =~= seq!['0'].push('.'));
            lemma_utf8_len_push(Seq::<char>::empty(), '0');
            assert(Seq::<char>::empty().push('0') =~= seq!['0']);
            lemma_utf8_len_push(seq!['0'], '.');
            assert(after_first_dot(seq!['0']) == after_first_dot(seq!['0'].drop_first()));
            assert(seq!['0'].drop_first() =~= Seq::<char>::empty());
            lemma_after_first_dot_push(seq!['0'], '.');
            assert(utf8_len(Seq::<char>::empty()) == 0);
        } else {
            let t = p.text.push('.');
            lemma_utf8_len_push(p.text, '.');
            lemma_utf8_len_bound(t);
            assert(t[0] == p.text[0]);
            lemma_no_dot(p.text);
            lemma_after_first_dot_push(p.text, '.');
            assert(utf8_len(Seq::<char>::empty()) == 0);
            assert forall|i: int| 0 <= i < t.len() implies is_ascii_digit_spec(#[trigger] t[i])
                || t[i] == '.' by {
                if i < p.text.len() {
                    assert(t[i] == p.text[i]);
                }
            }
            assert forall|i: int, j: int| 0 <= i < j < t.len() && t[i] == '.' implies t[j]
                != '.' by {
                assert(t[i] == p.text[i]);
                assert(!p.text.contains('.'));
                assert(p.text[i] != '.');
            }
        }
    }
}

/// A backspace keeps an edited start time well-formed.
pub proof fn lemma_backspace_keeps_well_formed(m: StartInputModel)
    requires
        m.pristine || well_formed_text(m.text),
    ensures
        well_formed_text(backspace_spec(m).text),
{
    let p = prepared(m);
    if p.text.len() == 0 {
        assert(utf8_len(p.text) == 0);
        assert(after_first_dot(p.text) is None);
        assert(decimals_spec(p.text) == 0);
    } else {
        let u = p.text.drop_last();
        let c = p.text.last();
        assert(u.push(c) =~= p.text);
        if u.len() > 0 {
            assert(u[0] == p.text[0]);
        }
        lemma_utf8_len_push(u, c);
        lemma_after_first_dot_push(u, c);
        match after_first_dot(u) {
            Some(w) => lemma_utf8_len_push(w, c),
            None => {},
        }
        assert forall|i: int| 0 <= i < u.len() implies is_ascii_digit_spec(#[trigger] u[i]) || u[i]
            == '.' by {
            assert(u[i] == p.text[i]);
        }
        assert forall|i: int, j: int| 0 <= i < j < u.len() && u[i] == '.' implies u[j] != '.' by {
            assert(u[i] == p.text[i] && u[j] == p.text[j]);
        }
    }
}

/// One edit of the start-time field.
#[derive(Debug, Clone, Copy, PartialEq, Eq, Structural)]
pub enum StartEdit {
    Digit(char),
    Separator,
    Backspace,
}

/// The field after one edit.
pub open spec fn edit_spec(m: StartInputModel, e: StartEdit) -> StartInputModel {
    match e {
        StartEdit::Digit(d) => push_digit_spec(m, d),
        StartEdit::Separator => push_separator_spec(m),
        StartEdit::Backspace => backspace_spec(m),
    }
}

/// The field after the edits, in order.
pub open spec fn edits_spec(m: StartInputModel, edits: Seq<StartEdit>) -> StartInputModel
    decreases edits.len(),
{
    if edits.len() == 0 {
        m
    } else {
        edit_spec(edits_spec(m, edits.drop_last()), edits.last())
    }
}

/// Editing keeps the start time well-formed. From a field just opened (or
/// already well-formed), any non-empty run of digits, separators and
/// backspaces leaves a text that is empty or digits, optionally followed by
/// one dot and at most two digits, of at most [`MAX_START_INPUT_CHARS`]
/// characters; the opening text is gone after the first edit.
pub proof fn lemma_edits_keep_well_formed(m: StartInputModel, edits: Seq<StartEdit>)
    requires
        m.pristine || well_formed_text(m.text),
        m.pristine ==> edits.len() > 0,
        forall|i: int|
            0 <= i < edits.len() ==> (#[trigger] edits[i] matches StartEdit::Digit(d)
                ==> is_ascii_digit_spec(d)),
    ensures
        well_formed_text(edits_spec(m, edits).text),
        edits.len() > 0 ==> !edits_spec(m, edits).pristine,
    decreases edits.len(),
{
    if edits.len() > 0 {
        let prev = edits.drop_last();
        let e = edits.last();
        assert forall|i: int| 0 <= i < prev.len() implies (#[trigger] prev[i] matches StartEdit::Digit(
            d,
        ) ==> is_ascii_digit_spec(d)) by {
            assert(prev[i] == edits[i]);
        }
        let before = edits_spec(m, prev);
        if prev.len() > 0 {
            lemma_edits_keep_well_formed(m, prev);
        }
        assert(before.pristine || well_formed_text(before.text));
        assert(edits[edits.len() - 1] == e);
        match e {
            StartEdit::Digit(d) => lemma_push_digit_keeps_well_formed(before, d),
            StartEdit::Separator => lemma_push_separator_keeps_well_formed(before),
            StartEdit::Backspace => lemma_backspace_keeps_well_formed(before),
        }
    }
}

/// A backspace takes back a digit that was typed.
pub proof fn lemma_backspace_undoes_digit(m: StartInputModel, d: char)
    requires
        !m.pristine,
        utf8_len(m.text) < MAX_START_INPUT_CHARS,
        decimals_spec(m.text) < 2,
    ensures
        backspace_spec(push_digit_spec(m, d)) == m,
{
    assert(m.text.push(d).drop_last() =~= m.text);
}

} // verus!
