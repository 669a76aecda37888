use vstd::prelude::*;

verus! {

/// Is `c` an ASCII decimal digit?
pub open spec fn is_digit(c: char) -> bool {
    '0' <= c && c <= '9'
}

pub open spec fn digit_value(c: char) -> int {
    (c as int) - ('0' as int)
}

/// End of the run of decimal digits that starts at `pos`.
pub open spec fn digits_end(s: Seq<char>, pos: int) -> int
    decreases s.len() - pos,
{
    if 0 <= pos < s.len() && is_digit(s[pos]) {
        digits_end(s, pos + 1)
    } else {
        pos
    }
}

/// Decimal value of a string of digits.
pub open spec fn decimal(d: Seq<char>) -> int
    decreases d.len(),
{
    if d.len() == 0 {
        0
    } else {
        decimal(d.drop_last()) * 10 + digit_value(d.last())
    }
}

/// The number written at `pos` when it fits a byte: its value and the
/// position just past its digits.
pub open spec fn number_at(s: Seq<char>, pos: int) -> Option<(int, int)> {
    let e = digits_end(s, pos);
    if e > pos && decimal(s.subrange(pos, e)) <= 255 {
        Some((decimal(s.subrange(pos, e)), e))
    } else {
        None
    }
}

/// An item spanning `begin..=end`, with the optional `/S` suffix read at `p`.
/// An item is `(begin, end, step, position after its text)`.
pub open spec fn with_step(s: Seq<char>, p: int, begin: int, end: int) -> Option<(int, int, int, int)> {
    if 0 <= p < s.len() && s[p] == '/' {
        match number_at(s, p + 1) {
            Some((st, q)) => if st == 0 {
                None
            } else {
                Some((begin, end, st, q))
            },
            None => None,
        }
    } else {
        Some((begin, end, 1, p))
    }
}

/// The item whose text starts at `pos`: `N`, `N-M`, `N-M/S`, `*` or `*/S`.
pub open spec fn item_at(s: Seq<char>, pos: int, limit: int, one_indexed: bool) -> Option<(int, int, int, int)> {
    if 0 <= pos < s.len() && is_digit(s[pos]) {
        match number_at(s, pos) {
            None => None,
            Some((b, p)) => if 0 <= p < s.len() && s[p] == '-' {
                match number_at(s, p + 1) {
                    None => None,
                    Some((e, q)) => with_step(s, q, b, e),
                }
            } else {
                Some((b, b, 1, p))
            },
        }
    } else if 0 <= pos < s.len() && s[pos] == '*' && limit > 0 {
        with_step(s, pos + 1, if one_indexed { 1 } else { 0 }, limit - 1)
    } else {
        None
    }
}

/// The bounds of an item lie in the field's domain.
pub open spec fn item_in_range(it: (int, int, int, int), limit: int, one_indexed: bool) -> bool {
    &&& it.0 < limit
    &&& it.1 < limit
    &&& !(one_indexed && (it.0 == 0 || it.1 == 0))
}

/// The comma-separated items from `pos` to the end of the text, or `None`
/// when the text there is not a well-formed list of in-range items.
pub open spec fn items_from(s: Seq<char>, pos: int, limit: int, one_indexed: bool) -> Option<Seq<(int, int, int, int)>>
    decreases s.len() - pos,
{
    match item_at(s, pos, limit, one_indexed) {
        None => None,
        Some(it) => if !item_in_range(it, limit, one_indexed) {
            None
        } else if it.3 >= s.len() {
            Some(seq![it])
        } else if pos < it.3 && s[it.3] == ',' {
            match items_from(s, it.3 + 1, limit, one_indexed) {
                None => None,
                Some(rest) => Some(seq![it] + rest),
            }
        } else {
            None
        },
    }
}

/// Value `v` is one of the values an item designates.
pub open spec fn item_covers(it: (int, int, int, int), v: int) -> bool {
    it.0 <= v <= it.1 && (v - it.0) % it.2 == 0
}

/// Value `v` is designated by some item.
pub open spec fn covered(items: Seq<(int, int, int, int)>, v: int) -> bool {
    exists|i: int| 0 <= i < items.len() && item_covers(#[trigger] items[i], v)
}

/// What a field's text designates over `0..limit`: for each value, whether
/// it is valid; `None` when the text is rejected.
pub open spec fn field_values(s: Seq<char>, limit: int, one_indexed: bool) -> Option<Seq<bool>> {
    match items_from(s, 0, limit, one_indexed) {
        None => None,
        Some(items) => Some(Seq::new(limit as nat, |v: int| covered(items, v))),
    }
}

/// Parsing depends on the text alone: equal texts over the same domain give
/// the same outcome, the same valid values or the same rejection.
pub proof fn lemma_parse_deterministic(a: Seq<char>, b: Seq<char>, limit: int, one_indexed: bool)
    requires
        a == b,
    ensures
        field_values(a, limit, one_indexed) == field_values(b, limit, one_indexed),
{
}

/// The set of valid values of one schedule field, indexed by value.
#[derive(Debug, Clone)]
pub struct Constraint {
    valid: Vec<bool>,
}

impl View for Constraint {
    type V = Seq<bool>;

    closed spec fn view(&self) -> Seq<bool> {
        self.valid@
    }
}

/// Copies the characters of `s` into a vector.
pub fn chars_of(s: &str) -> (r: Vec<char>)
    ensures
        r@ == s@,
{
    let mut out: Vec<char> = Vec::new();
    for c in it: s.chars()
        invariant
            out@ == it.seq().take(it.index() as int),
    {
        out.push(c);
    }
    proof {
        vstd::string::axiom_spec_iter(s);
    }
    assert(out@ =~= s@);
    out
}


impl Constraint {
    /// A field from its table of valid values.
    pub fn new(valid: Vec<bool>) -> (r: Constraint)
        ensures
            r@ == valid@,
    {
        Constraint { valid }
    }

    /// Is `value` valid for this field?
    pub fn satisfy(&self, value: u32) -> (r: bool)
        requires
            value < self@.len(),
        ensures
            r == self@[value as int],
    {
        self.valid[value as usize]
    }

    /// Parses a field's text over the domain `0..limit` (`1..limit` when
    /// `one_indexed`).
    pub fn parse(input: &str, limit: u8, one_indexed: bool) -> (r: Option<Constraint>)
        ensures
            match field_values(input@, limit as int, one_indexed) {
                Some(vals) => r matches Some(c) && c@ == vals,
                None => r is None,
            },
    {
        let chars = chars_of(input);
        Constraint::parse_chars(&chars, limit, one_indexed)
    }

    /// Parses a field given as characters; see `parse`.
    pub fn parse_chars(input: &Vec<char>, limit: u8, one_indexed: bool) -> (r: Option<Constraint>)
        ensures
            match field_values(input@, limit as int, one_indexed) {
                Some(vals) => r matches Some(c) && c@ == vals,
                None => r is None,
            },
    {
        let mut valid: Vec<bool> = Vec::new();
        while valid.len() < limit as usize
            invariant
                valid.len() <= limit,
                forall|v: int| 0 <= v < valid.len() ==> !valid@[v],
            decreases limit - valid.len(),
        {
            valid.push(false);
        }
        let ok = mark_items(input, 0, limit, one_indexed, &mut valid);
        if ok {
            let ghost items = items_from(input@, 0, limit as int, one_indexed)->0;
            assert(valid@ =~= Seq::new(limit as nat, |v: int| covered(items, v)));
            Some(Constraint { valid })
        } else {
            None
        }
    }
}

pub fn is_digit_char(c: char) -> (r: bool)
    ensures
        r == is_digit(c),
{
    '0' <= c && c <= '9'
}

/// Reads the run of digits at `pos`. Returns its value when the run is
/// non-empty and the value fits a byte, and the position after the run.
pub fn read_u8(s: &Vec<char>, pos: usize) -> (r: (Option<u8>, usize))
    requires
        pos <= s.len(),
    ensures
        r.1 == digits_end(s@, pos as int),
        pos <= r.1 <= s.len(),
        match number_at(s@, pos as int) {
            Some((v, _)) => r.0 matches Some(b) && b as int == v,
            None => r.0 is None,
        },
{
    let mut i: usize = pos;
    let mut acc: u32 = 0;
    while i < s.len() && is_digit_char(s[i])
        invariant
            pos <= i <= s.len(),
            digits_end(s@, pos as int) == digits_end(s@, i as int),
            acc == (if decimal(s@.subrange(pos as int, i as int)) > 256 {
                256
            } else {
                decimal(s@.subrange(pos as int, i as int))
            }),
        decreases s.len() - i,
    {
        let ghost before = s@.subrange(pos as int, i as int);
        let d: u32 = (s[i] as u32) - ('0' as u32);
        let next: u32 = acc * 10 + d;
        acc = if next > 256 { 256 } else { next };
        i = i + 1;
        assert(s@.subrange(pos as int, i as int).drop_last() =~= before);
    }
    proof {
        lemma_digits_end_bounds(s@, pos as int);
    }
    if i > pos && acc <= 255 {
        (Some(acc as u8), i)
    } else {
        (None, i)
    }
}


/// Reads an optional `/S` suffix at `p` of an item spanning `begin..=end`.
fn read_step(s: &Vec<char>, p: usize, begin: u8, end: u8) -> (r: Option<(u8, u8, u8, usize)>)
    requires
        p <= s.len(),
    ensures
        match with_step(s@, p as int, begin as int, end as int) {
            Some(it) => r matches Some(x) && x.0 as int == it.0 && x.1 as int == it.1
                && x.2 as int == it.2 && x.3 as int == it.3,
            None => r is None,
        },
{
    if p < s.len() && s[p] == '/' {
        let (st, q) = read_u8(s, p + 1);
        match st {
            Some(st) => if st == 0 {
                None
            } else {
                Some((begin, end, st, q))
            },
            None => None,
        }
    } else {
        Some((begin, end, 1, p))
    }
}

/// Reads the item whose text starts at `pos`.
fn read_item(s: &Vec<char>, pos: usize, limit: u8, one_indexed: bool) -> (r: Option<(u8, u8, u8, usize)>)
    requires
        pos <= s.len(),
    ensures
        match item_at(s@, pos as int, limit as int, one_indexed) {
            Some(it) => r matches Some(x) && x.0 as int == it.0 && x.1 as int == it.1
                && x.2 as int == it.2 && x.3 as int == it.3,
            None => r is None,
        },
{
    if pos < s.len() && is_digit_char(s[pos]) {
        let (b, p) = read_u8(s, pos);
        match b {
            None => None,
            Some(b) => if p < s.len() && s[p] == '-' {
                let (e, q) = read_u8(s, p + 1);
                match e {
                    None => None,
                    Some(e) => read_step(s, q, b, e),
                }
            } else {
                Some((b, b, 1, p))
            },
        }
    } else if pos < s.len() && s[pos] == '*' && limit > 0 {
        read_step(s, pos + 1, if one_indexed { 1 } else { 0 }, limit - 1)
    } else {
        None
    }
}

proof fn lemma_digits_end_bounds(s: Seq<char>, pos: int)
    requires
        0 <= pos <= s.len(),
    ensures
        pos <= digits_end(s, pos) <= s.len(),
    decreases s.len() - pos,
{
    if pos < s.len() && is_digit(s[pos]) {
        lemma_digits_end_bounds(s, pos + 1);
    }
}

proof fn lemma_item_advances(s: Seq<char>, pos: int, limit: int, one_indexed: bool)
    requires
        0 <= pos <= s.len(),
        item_at(s, pos, limit, one_indexed) is Some,
    ensures
        ({
            let it = item_at(s, pos, limit, one_indexed)->0;
            pos < it.3 <= s.len()
        }),
{
    lemma_digits_end_bounds(s, pos);
    let p = digits_end(s, pos);
    if 0 <= p < s.len() {
        lemma_digits_end_bounds(s, p + 1);
        let q = digits_end(s, p + 1);
        if 0 <= q < s.len() {
            lemma_digits_end_bounds(s, q + 1);
        }
    }
    if pos + 1 <= s.len() {
        lemma_digits_end_bounds(s, pos + 1);
    }
    if pos + 2 <= s.len() {
        lemma_digits_end_bounds(s, pos + 2);
    }
}

/// Marks `begin, begin + step, ...` up to `end` as valid.
fn mark_item(valid: &mut Vec<bool>, begin: u8, end: u8, step: u8)
    requires
        step > 0,
        begin < old(valid)@.len(),
        end < old(valid)@.len(),
    ensures
        final(valid)@.len() == old(valid)@.len(),
        forall|v: int| 0 <= v < old(valid)@.len() ==> final(valid)@[v] == (old(valid)@[v]
            || item_covers((begin as int, end as int, step as int, 0), v)),
{
    let ghost init = valid@;
    let mut x: u16 = begin as u16;
    assert((x - begin) % (step as int) == 0) by (nonlinear_arith)
        requires
            x == begin,
            step > 0,
    ;
    while x <= end as u16
        invariant
            valid@.len() == init.len(),
            begin <= x,
            x == begin || x <= end as int + step as int,
            (x - begin) % (step as int) == 0,
            step > 0,
            end < init.len(),
            forall|v: int| 0 <= v < init.len() ==> #[trigger] valid@[v] == (init[v] || (begin <= v
                < x && v <= end && (v - begin) % (step as int) == 0)),
        decreases 512 - x,
    {
        valid.set(x as usize, true);
        let ghost old_x = x as int;
        x = x + step as u16;
        assert forall|v: int| 0 <= v < init.len() implies #[trigger] valid@[v] == (init[v] || (
        begin <= v < x && v <= end && (v - begin) % (step as int) == 0)) by {
            if old_x < v < x {
                assert((v - begin) % (step as int) != 0) by (nonlinear_arith)
                    requires
                        (old_x - begin) % (step as int) == 0,
                        old_x < v < old_x + step,
                        step > 0,
                ;
            }
        }
        assert((x - begin) % (step as int) == 0) by (nonlinear_arith)
            requires
                (old_x - begin) % (step as int) == 0,
                x == old_x + step,
                step > 0,
        ;
    }
    assert forall|v: int| 0 <= v < init.len() implies #[trigger] valid@[v] == (init[v]
        || item_covers((begin as int, end as int, step as int, 0), v)) by {
        if begin <= v <= end {
            assert(v < x);
        }
    }
}

/// Marks the values of the items from `pos` to the end of the text.
/// Returns whether that text is a well-formed list of in-range items.
fn mark_items(s: &Vec<char>, pos: usize, limit: u8, one_indexed: bool, valid: &mut Vec<bool>) -> (ok: bool)
    requires
        pos <= s.len(),
        old(valid)@.len() == limit,
    ensures
        ok == items_from(s@, pos as int, limit as int, one_indexed) is Some,
        final(valid)@.len() == limit,
        ok ==> forall|v: int| 0 <= v < limit ==> final(valid)@[v] == (old(valid)@[v]
            || covered(items_from(s@, pos as int, limit as int, one_indexed)->0, v)),
    decreases s.len() - pos,
{
    let item = read_item(s, pos, limit, one_indexed);
    match item {
        None => false,
        Some((b, e, st, next)) => {
            let ghost it = item_at(s@, pos as int, limit as int, one_indexed)->0;
            proof {
                lemma_item_advances(s@, pos as int, limit as int, one_indexed);
            }
            if b >= limit || e >= limit || (one_indexed && (b == 0 || e == 0)) {
                return false;
            }
            let ghost before = valid@;
            mark_item(valid, b, e, st);
            if next >= s.len() {
                assert forall|v: int| 0 <= v < limit implies valid@[v] == (before[v]
                    || covered(seq![it], v)) by {
                    if item_covers(it, v) {
                        assert(seq![it][0] == it);
                    }
                }
                true
            } else if s[next] == ',' {
                let ghost mid = valid@;
                let ok = mark_items(s, next + 1, limit, one_indexed, valid);
                if ok {
                    let ghost rest = items_from(s@, next + 1, limit as int, one_indexed)->0;
                    let ghost all = seq![it] + rest;
                    assert forall|v: int| 0 <= v < limit implies valid@[v] == (before[v]
                        || covered(all, v)) by {
                        if item_covers(it, v) {
                            assert(all[0] == it);
                        }
                        if covered(rest, v) {
                            let i = choose|i: int| 0 <= i < rest.len() && item_covers(rest[i], v);
                            assert(all[i + 1] == rest[i]);
                        }
                        if covered(all, v) {
                            let i = choose|i: int| 0 <= i < all.len() && item_covers(all[i], v);
                            if i > 0 {
                                assert(all[i] == rest[i - 1]);
                            }
                        }
                    }
                }
                ok
            } else {
                false
            }
        },
    }
}

} // verus!
