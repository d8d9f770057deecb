//! Text operations stated over the characters of a string.

use vstd::prelude::*;
use vstd::string::StrSliceExecFns;
use vstd::string::StringExecFns;

verus! {

/// `String::push`: appends one character at the end.
pub assume_specification[ std::string::String::push ](text: &mut std::string::String, c: char)
    ensures
        final(text)@ == old(text)@.push(c),
;

/// The characters of each string.
pub open spec fn texts(values: Seq<String>) -> Seq<Seq<char>> {
    Seq::new(values.len(), |i: int| values[i]@)
}

/// Appending a string appends its characters.
pub proof fn lemma_texts_push(values: Seq<String>, value: String)
    ensures
        texts(values.push(value)) == texts(values).push(value@),
{
    assert(texts(values.push(value)) =~= texts(values).push(value@));
}

/// The result of comparing two values.
#[derive(Clone, Copy, Debug, PartialEq, Eq, Structural)]
pub enum Order {
    Less,
    Equal,
    Greater,
}

impl Order {
    /// The comparison with its two sides exchanged.
    pub open spec fn spec_reverse(self) -> Order {
        match self {
            Order::Less => Order::Greater,
            Order::Equal => Order::Equal,
            Order::Greater => Order::Less,
        }
    }

    /// The comparison with its two sides exchanged.
    #[verifier::when_used_as_spec(spec_reverse)]
    pub fn reverse(self) -> (result: Order)
        ensures
            result == self.spec_reverse(),
    {
        match self {
            Order::Less => Order::Greater,
            Order::Equal => Order::Equal,
            Order::Greater => Order::Less,
        }
    }

    pub fn is_lt(self) -> (result: bool)
        ensures
            result == (self == Order::Less),
    {
        self == Order::Less
    }

    pub fn is_gt(self) -> (result: bool)
        ensures
            result == (self == Order::Greater),
    {
        self == Order::Greater
    }

    pub fn is_eq(self) -> (result: bool)
        ensures
            result == (self == Order::Equal),
    {
        self == Order::Equal
    }
}

/// The order of two integers.
pub open spec fn int_order(left: int, right: int) -> Order {
    if left < right {
        Order::Less
    } else if left == right {
        Order::Equal
    } else {
        Order::Greater
    }
}

/// The order of two natural numbers of the machine.
pub fn order_u64(left: u64, right: u64) -> (result: Order)
    ensures
        result == int_order(left as int, right as int),
{
    if left < right {
        Order::Less
    } else if left == right {
        Order::Equal
    } else {
        Order::Greater
    }
}

/// The order of two lengths.
pub fn order_usize(left: usize, right: usize) -> (result: Order)
    ensures
        result == int_order(left as int, right as int),
{
    if left < right {
        Order::Less
    } else if left == right {
        Order::Equal
    } else {
        Order::Greater
    }
}

/// The order of two truth values: `false` comes before `true`.
pub open spec fn bool_order(left: bool, right: bool) -> Order {
    if left == right {
        Order::Equal
    } else if right {
        Order::Less
    } else {
        Order::Greater
    }
}

pub fn order_bool(left: bool, right: bool) -> (result: Order)
    ensures
        result == bool_order(left, right),
{
    if left == right {
        Order::Equal
    } else if right {
        Order::Less
    } else {
        Order::Greater
    }
}

/// Lexicographic order by code point.
pub open spec fn text_order(left: Seq<char>, right: Seq<char>) -> Order
    decreases left.len(),
{
    if left.len() == 0 && right.len() == 0 {
        Order::Equal
    } else if left.len() == 0 {
        Order::Less
    } else if right.len() == 0 {
        Order::Greater
    } else if left[0] < right[0] {
        Order::Less
    } else if right[0] < left[0] {
        Order::Greater
    } else {
        text_order(left.drop_first(), right.drop_first())
    }
}

/// Texts compare as equal exactly when they are the same text.
pub proof fn lemma_text_order_equal(left: Seq<char>, right: Seq<char>)
    ensures
        text_order(left, right) == Order::Equal <==> left == right,
    decreases left.len(),
{
    if left.len() > 0 && right.len() > 0 {
        lemma_text_order_equal(left.drop_first(), right.drop_first());
        if left[0] == right[0] && left.drop_first() == right.drop_first() {
            assert(left =~= seq![left[0]] + left.drop_first());
            assert(right =~= seq![right[0]] + right.drop_first());
        }
        if left == right {
            assert(left.drop_first() == right.drop_first());
        }
    } else if left.len() == 0 && right.len() == 0 {
        assert(left =~= right);
    }
}

/// Exchanging the texts exchanges the result.
pub proof fn lemma_text_order_reverse(left: Seq<char>, right: Seq<char>)
    ensures
        text_order(right, left) == text_order(left, right).spec_reverse(),
    decreases left.len(),
{
    if left.len() > 0 && right.len() > 0 {
        lemma_text_order_reverse(left.drop_first(), right.drop_first());
    }
}

/// The order of texts is transitive.
pub proof fn lemma_text_order_transitive(a: Seq<char>, b: Seq<char>, c: Seq<char>)
    requires
        text_order(a, b) != Order::Greater,
        text_order(b, c) != Order::Greater,
    ensures
        text_order(a, c) != Order::Greater,
        text_order(a, c) == Order::Equal ==> text_order(a, b) == Order::Equal && text_order(b, c)
            == Order::Equal,
    decreases a.len(),
{
    if a.len() > 0 && b.len() > 0 && c.len() > 0 {
        if a[0] == b[0] && b[0] == c[0] {
            lemma_text_order_transitive(a.drop_first(), b.drop_first(), c.drop_first());
        }
    }
}

/// The characters of a text.
pub fn chars_of(value: &str) -> (result: Vec<char>)
    ensures
        result@ == value@,
{
    let mut result: Vec<char> = Vec::new();
    for c in it: value.chars()
        invariant
            result@ == value@.take(it.index@),
            it.seq() == value@,
    {
        proof {
            assert(value@.take(it.index@ + 1) =~= value@.take(it.index@).push(value@[it.index@]));
        }
        result.push(c);
    }
    proof {
        assert(value@.take(value@.len() as int) =~= value@);
    }
    result
}

/// The text made of the characters from `from` up to `to`.
pub fn text_between(chars: &Vec<char>, from: usize, to: usize) -> (result: String)
    requires
        from <= to <= chars@.len(),
    ensures
        result@ == chars@.subrange(from as int, to as int),
{
    let mut result = String::new();
    let mut i: usize = from;
    while i < to
        invariant
            from <= i <= to <= chars@.len(),
            result@ == chars@.subrange(from as int, i as int),
        decreases to - i,
    {
        result.push(chars[i]);
        proof {
            assert(chars@.subrange(from as int, i + 1) =~= chars@.subrange(
                from as int,
                i as int,
            ).push(chars@[i as int]));
        }
        i = i + 1;
    }
    result
}

/// Whether two texts are the same.
pub fn same_text(left: &str, right: &str) -> (result: bool)
    ensures
        result == (left@ == right@),
{
    left.to_owned() == right.to_owned()
}

/// Compares two texts by code point.
pub fn compare_text(left: &str, right: &str) -> (result: Order)
    ensures
        result == text_order(left@, right@),
{
    let a = chars_of(left);
    let b = chars_of(right);
    let mut i: usize = 0;
    proof {
        assert(a@.skip(0) =~= a@);
        assert(b@.skip(0) =~= b@);
    }
    while i < a.len() && i < b.len()
        invariant
            i <= a@.len(),
            i <= b@.len(),
            a@ == left@,
            b@ == right@,
            text_order(left@, right@) == text_order(a@.skip(i as int), b@.skip(i as int)),
        decreases a@.len() - i,
    {
        let x = a[i];
        let y = b[i];
        proof {
            assert(a@.skip(i as int).drop_first() =~= a@.skip(i + 1));
            assert(b@.skip(i as int).drop_first() =~= b@.skip(i + 1));
        }
        if x < y {
            return Order::Less;
        }
        if y < x {
            return Order::Greater;
        }
        i = i + 1;
    }
    if i < a.len() {
        Order::Greater
    } else if i < b.len() {
        Order::Less
    } else {
        Order::Equal
    }
}

/// Whether `part` stands in `value` at position `at`.
pub open spec fn stands_at(value: Seq<char>, part: Seq<char>, at: int) -> bool {
    0 <= at && at + part.len() <= value.len() && value.subrange(at, at + part.len()) == part
}

/// Whether `value` begins with `prefix`.
pub open spec fn has_prefix(value: Seq<char>, prefix: Seq<char>) -> bool {
    stands_at(value, prefix, 0)
}

/// Whether `value` ends with `suffix`.
pub open spec fn has_suffix(value: Seq<char>, suffix: Seq<char>) -> bool {
    stands_at(value, suffix, value.len() - suffix.len())
}

/// Whether `part` occurs somewhere in `value`.
pub open spec fn has_part(value: Seq<char>, part: Seq<char>) -> bool {
    exists|at: int| stands_at(value, part, at)
}

fn part_at(value: &Vec<char>, part: &Vec<char>, at: usize) -> (result: bool)
    requires
        at + part@.len() <= value@.len(),
    ensures
        result == stands_at(value@, part@, at as int),
{
    let length: usize = value.len();
    let mut i: usize = 0;
    while i < part.len()
        invariant
            i <= part@.len(),
            at + part@.len() <= value@.len(),
            length == value@.len(),
            forall|k: int| 0 <= k < i ==> value@[at + k] == part@[k],
        decreases part@.len() - i,
    {
        if value[at + i] != part[i] {
            proof {
                assert(value@.subrange(at as int, at + part@.len())[i as int] == value@[at + i]);
            }
            return false;
        }
        i = i + 1;
    }
    proof {
        assert(value@.subrange(at as int, at + part@.len()) =~= part@);
    }
    true
}

pub fn starts_with(value: &str, prefix: &str) -> (result: bool)
    ensures
        result == has_prefix(value@, prefix@),
{
    let v = chars_of(value);
    let p = chars_of(prefix);
    p.len() <= v.len() && part_at(&v, &p, 0)
}

pub fn ends_with(value: &str, suffix: &str) -> (result: bool)
    ensures
        result == has_suffix(value@, suffix@),
{
    let v = chars_of(value);
    let p = chars_of(suffix);
    p.len() <= v.len() && part_at(&v, &p, v.len() - p.len())
}

pub fn contains_text(value: &str, part: &str) -> (result: bool)
    ensures
        result == has_part(value@, part@),
{
    let v = chars_of(value);
    let p = chars_of(part);
    if p.len() > v.len() {
        return false;
    }
    let last = v.len() - p.len();
    let mut at: usize = 0;
    while at <= last
        invariant
            v@ == value@,
            p@ == part@,
            last + p@.len() == v@.len(),
            at <= last + 1,
            forall|k: int| 0 <= k < at ==> !stands_at(value@, part@, k),
        decreases last + 1 - at,
    {
        if part_at(&v, &p, at) {
            return true;
        }
        if at == last {
            return false;
        }
        at = at + 1;
    }
    false
}

/// The parts of a text between the occurrences of a separator.
pub open spec fn split_on(value: Seq<char>, separator: char) -> Seq<Seq<char>>
    decreases value.len(),
{
    if value.len() == 0 {
        seq![Seq::<char>::empty()]
    } else {
        let rest = split_on(value.drop_last(), separator);
        if value.last() == separator {
            rest.push(Seq::<char>::empty())
        } else {
            rest.drop_last().push(rest.last().push(value.last()))
        }
    }
}

/// A split has at least one part.
pub proof fn lemma_split_nonempty(value: Seq<char>, separator: char)
    ensures
        split_on(value, separator).len() >= 1,
    decreases value.len(),
{
    if value.len() > 0 {
        lemma_split_nonempty(value.drop_last(), separator);
    }
}

pub fn split_text(value: &str, separator: char) -> (result: Vec<String>)
    ensures
        texts(result@) == split_on(value@, separator),
        result@.len() >= 1,
{
    let chars = chars_of(value);
    let mut result: Vec<String> = Vec::new();
    let mut current = String::new();
    let mut i: usize = 0;
    proof {
        assert(chars@.take(0) =~= Seq::<char>::empty());
        assert(texts(result@).push(current@) =~= split_on(chars@.take(0), separator));
    }
    while i < chars.len()
        invariant
            i <= chars@.len(),
            chars@ == value@,
            texts(result@).push(current@) == split_on(chars@.take(i as int), separator),
        decreases chars@.len() - i,
    {
        let c = chars[i];
        proof {
            assert(chars@.take(i + 1).drop_last() =~= chars@.take(i as int));
            assert(chars@.take(i + 1).last() == c);
            assert(texts(result@).push(current@).drop_last() =~= texts(result@));
        }
        if c == separator {
            proof {
                lemma_texts_push(result@, current);
            }
            result.push(current);
            current = String::new();
        } else {
            current.push(c);
        }
        i = i + 1;
    }
    proof {
        lemma_texts_push(result@, current);
        assert(chars@.take(i as int) =~= value@);
    }
    result.push(current);
    result
}

/// The lower-case form of an ASCII letter; any other character as it is.
pub open spec fn ascii_lower_char(c: char) -> char {
    if 'A' <= c && c <= 'Z' {
        ((c as u8) + 32) as u8 as char
    } else {
        c
    }
}

/// The text with its ASCII letters in lower case.
pub open spec fn ascii_lower(value: Seq<char>) -> Seq<char> {
    Seq::new(value.len(), |i: int| ascii_lower_char(value[i]))
}

fn lower_char(c: char) -> (result: char)
    ensures
        result == ascii_lower_char(c),
{
    if 'A' <= c && c <= 'Z' {
        ((c as u8) + 32u8) as char
    } else {
        c
    }
}

pub fn to_ascii_lower(value: &str) -> (result: String)
    ensures
        result@ == ascii_lower(value@),
{
    let chars = chars_of(value);
    let mut result = String::new();
    let mut i: usize = 0;
    while i < chars.len()
        invariant
            i <= chars@.len(),
            chars@ == value@,
            result@ == ascii_lower(value@).take(i as int),
        decreases chars@.len() - i,
    {
        result.push(lower_char(chars[i]));
        i = i + 1;
        proof {
            assert(result@ =~= ascii_lower(value@).take(i as int));
        }
    }
    proof {
        assert(ascii_lower(value@).take(i as int) =~= ascii_lower(value@));
    }
    result
}

/// Whether two texts differ at most in the case of ASCII letters.
pub open spec fn same_ignoring_case(left: Seq<char>, right: Seq<char>) -> bool {
    ascii_lower(left) == ascii_lower(right)
}

pub fn eq_ignore_ascii_case(left: &str, right: &str) -> (result: bool)
    ensures
        result == same_ignoring_case(left@, right@),
{
    to_ascii_lower(left) == to_ascii_lower(right)
}

/// Whether one of the strings has these characters.
pub open spec fn lists_text(values: Seq<String>, value: Seq<char>) -> bool {
    exists|i: int| 0 <= i < values.len() && (#[trigger] values[i])@ == value
}

pub fn list_contains(values: &Vec<String>, value: &str) -> (result: bool)
    ensures
        result == lists_text(values@, value@),
{
    let mut i: usize = 0;
    while i < values.len()
        invariant
            i <= values@.len(),
            forall|k: int| 0 <= k < i ==> (#[trigger] values@[k])@ != value@,
        decreases values@.len() - i,
    {
        if same_text(values[i].as_str(), value) {
            return true;
        }
        i = i + 1;
    }
    false
}

/// Whether one of the strings is the text up to the case of ASCII letters.
pub open spec fn lists_ignoring_case(values: Seq<String>, value: Seq<char>) -> bool {
    exists|i: int| 0 <= i < values.len() && same_ignoring_case((#[trigger] values[i])@, value)
}

pub fn list_contains_ignoring_case(values: &Vec<String>, value: &str) -> (result: bool)
    ensures
        result == lists_ignoring_case(values@, value@),
{
    let mut i: usize = 0;
    while i < values.len()
        invariant
            i <= values@.len(),
            forall|k: int|
                0 <= k < i ==> !same_ignoring_case((#[trigger] values@[k])@, value@),
        decreases values@.len() - i,
    {
        if eq_ignore_ascii_case(values[i].as_str(), value) {
            return true;
        }
        i = i + 1;
    }
    false
}

/// A copy of a list of strings.
pub fn copy_texts(values: &Vec<String>) -> (result: Vec<String>)
    ensures
        result@ == values@,
{
    let mut result: Vec<String> = Vec::new();
    let mut i: usize = 0;
    while i < values.len()
        invariant
            i <= values@.len(),
            result@ == values@.take(i as int),
        decreases values@.len() - i,
    {
        result.push(values[i].clone());
        i = i + 1;
        proof {
            assert(result@ =~= values@.take(i as int));
        }
    }
    proof {
        assert(result@ =~= values@);
    }
    result
}

/// The texts in sequence, with nothing between them.
pub fn concat3(first: &str, second: &str, third: &str) -> (result: String)
    ensures
        result@ == first@ + second@ + third@,
{
    let mut result = first.to_owned();
    result.append(second);
    result.append(third);
    result
}

/// The digit with this value.
pub open spec fn digit_char(value: nat) -> char
    recommends
        value < 10,
{
    ((value as u8) + 48) as u8 as char
}

/// Decimal notation without leading zeros.
pub open spec fn decimal(value: nat) -> Seq<char>
    decreases value,
{
    if value < 10 {
        seq![digit_char(value)]
    } else {
        decimal(value / 10).push(digit_char(value % 10))
    }
}

pub fn decimal_text(value: u64) -> (result: String)
    ensures
        result@ == decimal(value as nat),
    decreases value,
{
    let digit = ((value % 10) as u8 + 48u8) as char;
    if value < 10 {
        let mut result = String::new();
        result.push(digit);
        proof {
            assert(result@ =~= decimal(value as nat));
        }
        result
    } else {
        let mut result = decimal_text(value / 10);
        result.push(digit);
        result
    }
}

/// The text in lower case, by the rules of Unicode.
pub uninterp spec fn lower_case(value: Seq<char>) -> Seq<char>;

/// `str::to_lowercase`: the result depends on the text alone.
#[verifier::external_body]
pub(crate) fn to_lower_case(value: &str) -> (result: String)
    ensures
        result@ == lower_case(value@),
{
    value.to_lowercase()
}

/// Whether a character is white space.
pub uninterp spec fn is_white_space(c: char) -> bool;

/// `char::is_whitespace`: the result depends on the character alone.
#[verifier::external_body]
fn white_space(c: char) -> (result: bool)
    ensures
        result == is_white_space(c),
{
    c.is_whitespace()
}

/// The text without white space at its start.
pub open spec fn without_leading_space(value: Seq<char>) -> Seq<char>
    decreases value.len(),
{
    if value.len() > 0 && is_white_space(value[0]) {
        without_leading_space(value.drop_first())
    } else {
        value
    }
}

/// The text without white space at its two ends.
pub open spec fn trimmed(value: Seq<char>) -> Seq<char>
    decreases value.len(),
{
    if value.len() > 0 && is_white_space(value.last()) {
        trimmed(value.drop_last())
    } else {
        without_leading_space(value)
    }
}

pub fn trim_text(value: &str) -> (result: String)
    ensures
        result@ == trimmed(value@),
{
    let chars = chars_of(value);
    let mut end: usize = chars.len();
    proof {
        assert(chars@.take(end as int) =~= value@);
    }
    while end > 0 && white_space(chars[end - 1])
        invariant
            end <= chars@.len(),
            trimmed(value@) == trimmed(chars@.take(end as int)),
        decreases end,
    {
        proof {
            assert(chars@.take(end as int).drop_last() =~= chars@.take(end - 1));
        }
        end = end - 1;
    }
    let mut start: usize = 0;
    proof {
        assert(chars@.subrange(0, end as int) =~= chars@.take(end as int));
    }
    while start < end && white_space(chars[start])
        invariant
            start <= end <= chars@.len(),
            trimmed(value@) == without_leading_space(chars@.subrange(start as int, end as int)),
        decreases end - start,
    {
        proof {
            assert(chars@.subrange(start as int, end as int).drop_first() =~= chars@.subrange(
                start + 1,
                end as int,
            ));
        }
        start = start + 1;
    }
    text_between(&chars, start, end)
}

/// The position of the first occurrence of a character; the length without one.
pub open spec fn first_at(value: Seq<char>, c: char) -> int
    decreases value.len(),
{
    if value.len() == 0 || value[0] == c {
        0
    } else {
        1 + first_at(value.drop_first(), c)
    }
}

/// A first position has the character and none comes before.
pub proof fn lemma_first_at(value: Seq<char>, c: char)
    ensures
        0 <= first_at(value, c) <= value.len(),
        first_at(value, c) < value.len() ==> value[first_at(value, c)] == c,
        forall|k: int| 0 <= k < first_at(value, c) ==> value[k] != c,
    decreases value.len(),
{
    if value.len() > 0 && value[0] != c {
        lemma_first_at(value.drop_first(), c);
        assert forall|k: int| 0 <= k < first_at(value, c) implies value[k] != c by {
            if k > 0 {
                assert(value.drop_first()[k - 1] == value[k]);
            }
        }
    }
}

pub fn find_first(chars: &Vec<char>, c: char) -> (result: usize)
    ensures
        result == first_at(chars@, c),
        result <= chars@.len(),
{
    let mut i: usize = 0;
    proof {
        assert(chars@.skip(0) =~= chars@);
    }
    while i < chars.len()
        invariant
            i <= chars@.len(),
            first_at(chars@, c) == i + first_at(chars@.skip(i as int), c),
        decreases chars@.len() - i,
    {
        proof {
            assert(chars@.skip(i as int).drop_first() =~= chars@.skip(i + 1));
        }
        if chars[i] == c {
            return i;
        }
        i = i + 1;
    }
    i
}

/// The position of the last occurrence of a character; -1 without one.
pub open spec fn last_at(value: Seq<char>, c: char) -> int
    decreases value.len(),
{
    if value.len() == 0 {
        -1
    } else if value.last() == c {
        value.len() - 1
    } else {
        last_at(value.drop_last(), c)
    }
}

/// A last position lies in the text.
pub proof fn lemma_last_at(value: Seq<char>, c: char)
    ensures
        -1 <= last_at(value, c) < value.len(),
        last_at(value, c) >= 0 ==> value[last_at(value, c)] == c,
    decreases value.len(),
{
    if value.len() > 0 && value.last() != c {
        lemma_last_at(value.drop_last(), c);
    }
}

pub fn find_last(chars: &Vec<char>, c: char) -> (result: Option<usize>)
    ensures
        match result {
            Some(i) => i == last_at(chars@, c) && i < chars@.len(),
            None => last_at(chars@, c) == -1,
        },
{
    let mut i: usize = chars.len();
    proof {
        assert(chars@.take(chars@.len() as int) =~= chars@);
    }
    while i > 0
        invariant
            i <= chars@.len(),
            last_at(chars@, c) == last_at(chars@.take(i as int), c),
        decreases i,
    {
        proof {
            assert(chars@.take(i as int).drop_last() =~= chars@.take(i - 1));
        }
        i = i - 1;
        if chars[i] == c {
            return Some(i);
        }
    }
    None
}

/// The part of a path after its last slash.
pub open spec fn last_part(path: Seq<char>) -> Seq<char> {
    path.skip(last_at(path, '/') + 1)
}

pub fn part_after_slash(path: &str) -> (result: String)
    ensures
        result@ == last_part(path@),
{
    let chars = chars_of(path);
    let length: usize = chars.len();
    let start: usize = match find_last(&chars, '/') {
        Some(at) => at + 1,
        None => 0,
    };
    let result = text_between(&chars, start, length);
    proof {
        assert(result@ =~= last_part(path@));
    }
    result
}

/// How many characters of a path stand before its parts: one for the root, or for
/// a dot in front that stands for the current directory.
pub open spec fn lead_of(path: Seq<char>) -> int {
    if path.len() == 0 {
        0
    } else if path[0] == '/' || (path[0] == '.' && (path.len() == 1 || path[1] == '/')) {
        1
    } else {
        0
    }
}

/// A path without the slashes and the parts of a single dot at its end. The root and
/// a dot in front stay.
pub open spec fn trimmed_path(path: Seq<char>) -> Seq<char>
    decreases path.len(),
{
    if path.len() <= lead_of(path) {
        path
    } else if path.last() == '/' || (path.last() == '.' && path.len() >= 2 && path[path.len() - 2]
        == '/') {
        trimmed_path(path.drop_last())
    } else {
        path
    }
}

/// The name of a path's file: its last part. Slashes and single dots at the end do
/// not count; the root, and a path that ends with the parent of a directory, have no
/// name.
pub open spec fn name_of(path: Seq<char>) -> Seq<char> {
    let path = trimmed_path(path);
    if path.len() <= lead_of(path) || last_part(path) == ".."@ {
        Seq::empty()
    } else {
        last_part(path)
    }
}

/// The folder of a path's file: the path without its last part, and without the
/// slashes and single dots in front of that part. A path of no parts has none.
pub open spec fn folder_of(path: Seq<char>) -> Seq<char> {
    let path = trimmed_path(path);
    if path.len() <= lead_of(path) {
        Seq::empty()
    } else {
        trimmed_path(path.take(last_at(path, '/') + 1))
    }
}

fn lead_chars(chars: &Vec<char>, length: usize) -> (result: usize)
    requires
        length <= chars@.len(),
    ensures
        result == lead_of(chars@.take(length as int)),
{
    if length == 0 {
        0
    } else if chars[0] == '/' || (chars[0] == '.' && (length == 1 || chars[1] == '/')) {
        1
    } else {
        0
    }
}

/// Where a path's first characters end without the slashes and single dots at their
/// end.
fn trimmed_length(chars: &Vec<char>, length: usize) -> (result: usize)
    requires
        length <= chars@.len(),
    ensures
        result <= length,
        chars@.take(result as int) == trimmed_path(chars@.take(length as int)),
{
    let mut end: usize = length;
    while end > lead_chars(chars, end) && (chars[end - 1] == '/' || (chars[end - 1] == '.' && end
        >= 2 && chars[end - 2] == '/'))
        invariant
            end <= length <= chars@.len(),
            trimmed_path(chars@.take(length as int)) == trimmed_path(chars@.take(end as int)),
        decreases end,
    {
        proof {
            assert(chars@.take(end as int).drop_last() =~= chars@.take(end - 1));
        }
        end = end - 1;
    }
    end
}

/// The last part of a path as `std::path::Path::file_name` has it where slashes
/// separate; empty where there is none.
pub fn file_name(path: &str) -> (result: String)
    ensures
        result@ == name_of(path@),
{
    let chars = chars_of(path);
    proof {
        assert(chars@.take(chars@.len() as int) =~= path@);
    }
    let length = trimmed_length(&chars, chars.len());
    if length <= lead_chars(&chars, length) {
        return String::new();
    }
    let whole = text_between(&chars, 0, length);
    proof {
        assert(whole@ =~= trimmed_path(path@));
    }
    let name = part_after_slash(whole.as_str());
    if same_text(name.as_str(), "..") {
        String::new()
    } else {
        name
    }
}

/// A path without its last part as `std::path::Path::parent` has it where slashes
/// separate; empty where there is none.
pub fn file_folder(path: &str) -> (result: String)
    ensures
        result@ == folder_of(path@),
{
    let chars = chars_of(path);
    proof {
        assert(chars@.take(chars@.len() as int) =~= path@);
    }
    let length = trimmed_length(&chars, chars.len());
    if length <= lead_chars(&chars, length) {
        return String::new();
    }
    let whole = chars_of(text_between(&chars, 0, length).as_str());
    proof {
        assert(whole@ =~= trimmed_path(path@));
    }
    let start: usize = match find_last(&whole, '/') {
        Some(at) => at + 1,
        None => 0,
    };
    let end = trimmed_length(&whole, start);
    let result = text_between(&whole, 0, end);
    proof {
        assert(result@ =~= folder_of(path@));
    }
    result
}

/// The text without a character at its end.
pub open spec fn trimmed_end(value: Seq<char>, c: char) -> Seq<char>
    decreases value.len(),
{
    if value.len() > 0 && value.last() == c {
        trimmed_end(value.drop_last(), c)
    } else {
        value
    }
}

pub fn trim_end_char(value: &str, c: char) -> (result: String)
    ensures
        result@ == trimmed_end(value@, c),
{
    let chars = chars_of(value);
    let mut end: usize = chars.len();
    proof {
        assert(chars@.take(end as int) =~= chars@);
    }
    while end > 0 && chars[end - 1] == c
        invariant
            end <= chars@.len(),
            trimmed_end(chars@, c) == trimmed_end(chars@.take(end as int), c),
        decreases end,
    {
        proof {
            assert(chars@.take(end as int).drop_last() =~= chars@.take(end - 1));
        }
        end = end - 1;
    }
    let result = text_between(&chars, 0, end);
    proof {
        assert(result@ =~= chars@.take(end as int));
    }
    result
}

/// The text without a character at its start.
pub open spec fn trimmed_start(value: Seq<char>, c: char) -> Seq<char>
    decreases value.len(),
{
    if value.len() > 0 && value[0] == c {
        trimmed_start(value.drop_first(), c)
    } else {
        value
    }
}

pub fn trim_start_char(value: &str, c: char) -> (result: String)
    ensures
        result@ == trimmed_start(value@, c),
{
    let chars = chars_of(value);
    let mut start: usize = 0;
    proof {
        assert(chars@.skip(0) =~= chars@);
    }
    while start < chars.len() && chars[start] == c
        invariant
            start <= chars@.len(),
            trimmed_start(chars@, c) == trimmed_start(chars@.skip(start as int), c),
        decreases chars@.len() - start,
    {
        proof {
            assert(chars@.skip(start as int).drop_first() =~= chars@.skip(start + 1));
        }
        start = start + 1;
    }
    let result = text_between(&chars, start, chars.len());
    proof {
        assert(result@ =~= chars@.skip(start as int));
    }
    result
}

/// What follows a prefix, where the text has it.
pub open spec fn after_prefix(value: Seq<char>, prefix: Seq<char>) -> Option<Seq<char>> {
    if has_prefix(value, prefix) {
        Some(value.skip(prefix.len() as int))
    } else {
        None
    }
}

pub fn strip_prefix(value: &str, prefix: &str) -> (result: Option<String>)
    ensures
        match result {
            Some(rest) => after_prefix(value@, prefix@) == Some(rest@),
            None => after_prefix(value@, prefix@) is None,
        },
{
    let v = chars_of(value);
    let p = chars_of(prefix);
    if p.len() <= v.len() && part_at(&v, &p, 0) {
        let rest = text_between(&v, p.len(), v.len());
        proof {
            assert(rest@ =~= value@.skip(prefix@.len() as int));
        }
        Some(rest)
    } else {
        None
    }
}

/// What stands before and after the first occurrence of a character.
pub open spec fn split_first(value: Seq<char>, c: char) -> Option<(Seq<char>, Seq<char>)> {
    let at = first_at(value, c);
    if at < value.len() {
        Some((value.take(at), value.skip(at + 1)))
    } else {
        None
    }
}

pub fn split_once(value: &str, c: char) -> (result: Option<(String, String)>)
    ensures
        match result {
            Some((before, after)) => split_first(value@, c) == Some((before@, after@)),
            None => split_first(value@, c) is None,
        },
{
    let chars = chars_of(value);
    let at = find_first(&chars, c);
    if at < chars.len() {
        let before = text_between(&chars, 0, at);
        let after = text_between(&chars, at + 1, chars.len());
        proof {
            assert(before@ =~= value@.take(at as int));
            assert(after@ =~= value@.skip(at + 1));
        }
        Some((before, after))
    } else {
        None
    }
}

/// What an optional text holds.
pub open spec fn optional_text(value: Option<String>) -> Option<Seq<char>> {
    match value {
        Some(text) => Some(text@),
        None => None,
    }
}

/// A copy of an optional text.
pub fn copy_optional(value: &Option<String>) -> (result: Option<String>)
    ensures
        result == *value,
{
    match value {
        Some(text) => Some(text.clone()),
        None => None,
    }
}

/// A list of texts, followed by those of another that are not yet in it.
pub open spec fn merged_texts(base: Seq<Seq<char>>, extra: Seq<Seq<char>>) -> Seq<Seq<char>>
    decreases extra.len(),
{
    if extra.len() == 0 {
        base
    } else {
        let rest = merged_texts(base, extra.drop_last());
        if rest.contains(extra.last()) {
            rest
        } else {
            rest.push(extra.last())
        }
    }
}

pub fn merge_texts(base: Vec<String>, extra: &Vec<String>) -> (result: Vec<String>)
    ensures
        texts(result@) == merged_texts(texts(base@), texts(extra@)),
{
    let ghost start = texts(base@);
    let ghost all = texts(extra@);
    let mut result = base;
    let mut i: usize = 0;
    while i < extra.len()
        invariant
            i <= extra@.len(),
            all == texts(extra@),
            texts(result@) == merged_texts(start, all.take(i as int)),
        decreases extra@.len() - i,
    {
        proof {
            assert(all.take(i + 1).drop_last() =~= all.take(i as int));
            assert(all.take(i + 1).last() == all[i as int]);
            lemma_lists_text(result@, extra@[i as int]@);
        }
        if !list_contains(&result, extra[i].as_str()) {
            proof {
                lemma_texts_push(result@, extra@[i as int]);
            }
            result.push(extra[i].clone());
        }
        i = i + 1;
    }
    proof {
        assert(all.take(i as int) =~= all);
    }
    result
}

/// A text is listed exactly when it is among the texts of the list.
pub proof fn lemma_lists_text(values: Seq<String>, value: Seq<char>)
    ensures
        lists_text(values, value) <==> texts(values).contains(value),
{
    if lists_text(values, value) {
        let i = choose|i: int| 0 <= i < values.len() && (#[trigger] values[i])@ == value;
        assert(texts(values)[i] == value);
    }
    if texts(values).contains(value) {
        let i = choose|i: int| 0 <= i < texts(values).len() && texts(values)[i] == value;
        assert(values[i]@ == value);
    }
}

/// Whether the two lists have a text in common, up to the case of ASCII letters.
pub open spec fn share_ignoring_case(left: Seq<String>, right: Seq<String>) -> bool {
    exists|i: int| 0 <= i < left.len() && lists_ignoring_case(right, (#[trigger] left[i])@)
}

pub fn lists_share_ignoring_case(left: &Vec<String>, right: &Vec<String>) -> (result: bool)
    ensures
        result == share_ignoring_case(left@, right@),
{
    let mut i: usize = 0;
    while i < left.len()
        invariant
            i <= left@.len(),
            forall|k: int| 0 <= k < i ==> !lists_ignoring_case(right@, (#[trigger] left@[k])@),
        decreases left@.len() - i,
    {
        if list_contains_ignoring_case(right, left[i].as_str()) {
            return true;
        }
        i = i + 1;
    }
    false
}

/// Whether a record of these types is wanted: where types are named, it has one
/// of them, up to the case of ASCII letters.
pub open spec fn is_wanted(actual: Seq<String>, wanted: Seq<Seq<char>>) -> bool {
    wanted.len() == 0 || exists|i: int, j: int|
        0 <= i < actual.len() && 0 <= j < wanted.len() && same_ignoring_case(
            #[trigger] wanted[j],
            (#[trigger] actual[i])@,
        )
}

pub fn has_wanted_type(actual: &Vec<String>, wanted: &Vec<String>) -> (result: bool)
    ensures
        result == is_wanted(actual@, texts(wanted@)),
{
    let result = wanted.len() == 0 || lists_share_ignoring_case(actual, wanted);
    proof {
        let names = texts(wanted@);
        assert(names.len() == wanted@.len());
        if wanted@.len() > 0 && result {
            let i = choose|i: int|
                0 <= i < actual@.len() && lists_ignoring_case(wanted@, (#[trigger] actual@[i])@);
            let j = choose|j: int|
                0 <= j < wanted@.len() && same_ignoring_case((#[trigger] wanted@[j])@, actual@[i]@);
            assert(same_ignoring_case(names[j], actual@[i]@));
        }
        if wanted@.len() > 0 && is_wanted(actual@, names) {
            let (i, j) = choose|i: int, j: int|
                0 <= i < actual@.len() && 0 <= j < names.len() && same_ignoring_case(
                    #[trigger] names[j],
                    (#[trigger] actual@[i])@,
                );
            assert(same_ignoring_case(wanted@[j]@, actual@[i]@));
            assert(lists_ignoring_case(wanted@, actual@[i]@));
        }
    }
    result
}

/// Whether texts stand in strictly ascending order.
pub open spec fn ascending_texts(values: Seq<Seq<char>>) -> bool {
    forall|i: int, j: int|
        #![trigger values[i], values[j]]
        0 <= i < j < values.len() ==> text_order(values[i], values[j]) == Order::Less
}

/// Whether a list has the texts of another, each once and in ascending order.
pub open spec fn is_sorted_set(result: Seq<Seq<char>>, source: Seq<Seq<char>>) -> bool {
    ascending_texts(result) && forall|text: Seq<char>| #[trigger]
        result.contains(text) <==> source.contains(text)
}

/// Adds a text to an ascending list, unless it is there.
pub fn insert_text(values: &mut Vec<String>, value: String)
    requires
        ascending_texts(texts(old(values)@)),
    ensures
        ascending_texts(texts(final(values)@)),
        forall|text: Seq<char>| #[trigger]
            texts(final(values)@).contains(text) <==> texts(old(values)@).contains(text) || text
                == value@,
{
    let ghost before = texts(values@);
    let mut at: usize = 0;
    while at < values.len() && compare_text(values[at].as_str(), value.as_str()).is_lt()
        invariant
            at <= values@.len(),
            values@ == old(values)@,
            before == texts(values@),
            forall|k: int| 0 <= k < at ==> text_order(#[trigger] before[k], value@) == Order::Less,
        decreases values@.len() - at,
    {
        at = at + 1;
    }
    if at < values.len() && compare_text(values[at].as_str(), value.as_str()).is_eq() {
        proof {
            lemma_text_order_equal(before[at as int], value@);
            assert(before[at as int] == value@);
        }
        return ;
    }
    values.insert(at, value);
    proof {
        let after = texts(values@);
        assert(after =~= before.insert(at as int, value@));
        assert forall|i: int, j: int|
            #![trigger after[i], after[j]]
            0 <= i < j < after.len() implies text_order(after[i], after[j]) == Order::Less by {
            let a = if i < at {
                i
            } else {
                i - 1
            };
            let b = if j < at {
                j
            } else {
                j - 1
            };
            if j == at {
                assert(before[i] == after[i]);
            } else if i == at {
                assert(after[j] == before[b]);
                assert(text_order(before[at as int], value@) == Order::Greater);
                lemma_text_order_reverse(before[at as int], value@);
                if b > at {
                    assert(text_order(before[at as int], before[b]) == Order::Less);
                    lemma_text_order_transitive(value@, before[at as int], before[b]);
                }
            } else {
                assert(after[i] == before[a]);
                assert(after[j] == before[b]);
            }
        }
        assert forall|text: Seq<char>| #[trigger] after.contains(text) <==> before.contains(text)
            || text == value@ by {
            if before.contains(text) {
                let k = choose|k: int| 0 <= k < before.len() && before[k] == text;
                assert(after[if k < at {
                    k
                } else {
                    k + 1
                }] == text);
            }
            if text == value@ {
                assert(after[at as int] == text);
            }
            if after.contains(text) {
                let k = choose|k: int| 0 <= k < after.len() && after[k] == text;
                if k < at {
                    assert(before[k] == text);
                } else if k > at {
                    assert(before[k - 1] == text);
                }
            }
        }
    }
}

/// The texts of a list, each once and in ascending order.
pub fn sorted_distinct(values: &Vec<String>) -> (result: Vec<String>)
    ensures
        is_sorted_set(texts(result@), texts(values@)),
{
    let ghost all = texts(values@);
    let mut result: Vec<String> = Vec::new();
    let mut i: usize = 0;
    while i < values.len()
        invariant
            i <= values@.len(),
            all == texts(values@),
            ascending_texts(texts(result@)),
            forall|text: Seq<char>| #[trigger]
                texts(result@).contains(text) <==> all.take(i as int).contains(text),
        decreases values@.len() - i,
    {
        let ghost before = texts(result@);
        insert_text(&mut result, values[i].clone());
        proof {
            let next = all.take(i + 1);
            assert forall|text: Seq<char>| #[trigger]
                texts(result@).contains(text) <==> next.contains(text) by {
                assert(before.contains(text) <==> all.take(i as int).contains(text));
                if all.take(i as int).contains(text) {
                    let k = choose|k: int|
                        0 <= k < all.take(i as int).len() && all.take(i as int)[k] == text;
                    assert(next[k] == text);
                }
                if text == values@[i as int]@ {
                    assert(next[i as int] == text);
                }
                if next.contains(text) {
                    let k = choose|k: int| 0 <= k < next.len() && next[k] == text;
                    if k < i {
                        assert(all.take(i as int)[k] == text);
                    }
                }
            }
        }
        i = i + 1;
    }
    proof {
        assert(all.take(i as int) =~= all);
    }
    result
}

/// Two ascending lists of the same texts are the same list.
pub proof fn lemma_sorted_set_unique(left: Seq<Seq<char>>, right: Seq<Seq<char>>)
    requires
        ascending_texts(left),
        ascending_texts(right),
        forall|text: Seq<char>| #[trigger] left.contains(text) <==> right.contains(text),
    ensures
        left == right,
    decreases left.len(),
{
    if left.len() == 0 {
        if right.len() > 0 {
            assert(right.contains(right[0]));
            assert(left.contains(right[0]));
        }
        assert(left =~= right);
    } else {
        assert(left.contains(left.last()));
        assert(right.contains(left.last()));
        assert(right.contains(right.last()));
        assert(left.contains(right.last()));
        let a = choose|k: int| 0 <= k < right.len() && right[k] == left.last();
        let b = choose|k: int| 0 <= k < left.len() && left[k] == right.last();
        lemma_text_order_equal(left.last(), right.last());
        lemma_text_order_reverse(left.last(), right.last());
        if a < right.len() - 1 && b < left.len() - 1 {
            assert(text_order(right[a], right[right.len() - 1]) == Order::Less);
            assert(text_order(left[b], left[left.len() - 1]) == Order::Less);
            assert(false);
        }
        assert(left.last() == right.last());
        let l = left.drop_last();
        let r = right.drop_last();
        assert forall|text: Seq<char>| #[trigger] l.contains(text) <==> r.contains(text) by {
            lemma_text_order_equal(left.last(), left.last());
            if l.contains(text) {
                let k = choose|k: int| 0 <= k < l.len() && l[k] == text;
                assert(left[k] == text);
                assert(left.contains(text));
                assert(text_order(left[k], left[left.len() - 1]) == Order::Less);
                assert(right.contains(text));
                let m = choose|m: int| 0 <= m < right.len() && right[m] == text;
                assert(r[m] == text);
            }
            if r.contains(text) {
                let k = choose|k: int| 0 <= k < r.len() && r[k] == text;
                assert(right[k] == text);
                assert(right.contains(text));
                assert(text_order(right[k], right[right.len() - 1]) == Order::Less);
                assert(left.contains(text));
                let m = choose|m: int| 0 <= m < left.len() && left[m] == text;
                assert(l[m] == text);
            }
        }
        assert(ascending_texts(l)) by {
            assert forall|i: int, j: int|
                #![trigger l[i], l[j]]
                0 <= i < j < l.len() implies text_order(l[i], l[j]) == Order::Less by {
                assert(l[i] == left[i] && l[j] == left[j]);
            }
        }
        assert(ascending_texts(r)) by {
            assert forall|i: int, j: int|
                #![trigger r[i], r[j]]
                0 <= i < j < r.len() implies text_order(r[i], r[j]) == Order::Less by {
                assert(r[i] == right[i] && r[j] == right[j]);
            }
        }
        lemma_sorted_set_unique(l, r);
        assert(left =~= l.push(left.last()));
        assert(right =~= r.push(right.last()));
    }
}

/// The text with one character replaced by another throughout.
pub open spec fn replaced(value: Seq<char>, from: char, to: char) -> Seq<char> {
    Seq::new(
        value.len(),
        |i: int|
            if value[i] == from {
                to
            } else {
                value[i]
            },
    )
}

pub fn replace_char(value: &str, from: char, to: char) -> (result: String)
    ensures
        result@ == replaced(value@, from, to),
{
    let chars = chars_of(value);
    let mut result = String::new();
    let mut i: usize = 0;
    while i < chars.len()
        invariant
            i <= chars@.len(),
            chars@ == value@,
            result@ == replaced(value@, from, to).take(i as int),
        decreases chars@.len() - i,
    {
        let c = chars[i];
        if c == from {
            result.push(to);
        } else {
            result.push(c);
        }
        i = i + 1;
        proof {
            assert(result@ =~= replaced(value@, from, to).take(i as int));
        }
    }
    proof {
        assert(replaced(value@, from, to).take(i as int) =~= replaced(value@, from, to));
    }
    result
}

/// The value of a decimal digit.
pub open spec fn digit_value(c: char) -> int {
    c as u32 as int - 48
}

pub open spec fn is_digit(c: char) -> bool {
    48 <= c as u32 && c as u32 <= 57
}

/// The number that a row of decimal digits stands for.
pub open spec fn digits_value(digits: Seq<char>) -> int
    decreases digits.len(),
{
    if digits.len() == 0 {
        0
    } else {
        digits_value(digits.drop_last()) * 10 + digit_value(digits.last())
    }
}

/// The number of a row of decimal digits within the range of 64 bits.
pub open spec fn plain_number(digits: Seq<char>) -> Option<int> {
    if digits.len() > 0 && (forall|i: int|
        0 <= i < digits.len() ==> is_digit(#[trigger] digits[i])) && digits_value(digits)
        <= u64::MAX {
        Some(digits_value(digits))
    } else {
        None
    }
}

/// The number of a decimal notation: digits, with a plus sign before them or not.
pub open spec fn parsed_decimal(value: Seq<char>) -> Option<int> {
    if value.len() > 1 && value[0] == '+' {
        plain_number(value.drop_first())
    } else {
        plain_number(value)
    }
}

proof fn lemma_digits_grow(digits: Seq<char>, count: int)
    requires
        0 <= count <= digits.len(),
        forall|i: int| 0 <= i < digits.len() ==> is_digit(#[trigger] digits[i]),
    ensures
        0 <= digits_value(digits.take(count)) <= digits_value(digits),
    decreases digits.len(),
{
    if digits.len() > 0 {
        assert(is_digit(digits[digits.len() - 1]));
    }
    if count < digits.len() {
        let front = digits.drop_last();
        assert forall|i: int| 0 <= i < front.len() implies is_digit(#[trigger] front[i]) by {
            assert(front[i] == digits[i]);
        }
        lemma_digits_grow(front, count);
        assert(front.take(count) =~= digits.take(count));
    } else {
        assert(digits.take(count) =~= digits);
        if digits.len() > 0 {
            let front = digits.drop_last();
            assert forall|i: int| 0 <= i < front.len() implies is_digit(#[trigger] front[i]) by {
                assert(front[i] == digits[i]);
            }
            lemma_digits_grow(front, front.len() as int);
            assert(front.take(front.len() as int) =~= front);
        }
    }
}

pub fn parse_decimal(value: &str) -> (result: Option<u64>)
    ensures
        match result {
            Some(number) => parsed_decimal(value@) == Some(number as int),
            None => parsed_decimal(value@) is None,
        },
{
    let chars = chars_of(value);
    let start: usize = if chars.len() > 1 && chars[0] == '+' {
        1
    } else {
        0
    };
    let ghost digits = chars@.skip(start as int);
    proof {
        if start == 1 {
            assert(digits =~= chars@.drop_first());
        } else {
            assert(digits =~= chars@);
        }
    }
    if start == chars.len() {
        return None;
    }
    let mut number: u64 = 0;
    let mut i: usize = start;
    proof {
        assert(digits.take(0) =~= Seq::empty());
    }
    while i < chars.len()
        invariant
            start <= i <= chars@.len(),
            digits == chars@.skip(start as int),
            number == digits_value(digits.take(i - start)),
            forall|k: int| 0 <= k < i - start ==> is_digit(#[trigger] digits[k]),
            parsed_decimal(value@) == plain_number(digits),
        decreases chars@.len() - i,
    {
        let c = chars[i];
        proof {
            assert(digits[i - start] == c);
            assert(digits.take(i - start + 1).drop_last() =~= digits.take(i - start));
            assert(digits.take(i - start + 1).last() == c);
        }
        let code: u32 = c as u32;
        if code < 48 || code > 57 {
            proof {
                assert(!is_digit(digits[i - start]));
            }
            return None;
        }
        let digit: u64 = (code - 48) as u64;
        proof {
            assert(digits_value(digits.take(i - start + 1)) == number * 10 + digit);
        }
        match number.checked_mul(10) {
            Some(tens) => match tens.checked_add(digit) {
                Some(next) => {
                    number = next;
                },
                None => {
                    proof {
                        if parsed_decimal(value@) is Some {
                            lemma_digits_grow(digits, i - start + 1);
                        }
                    }
                    return None;
                },
            },
            None => {
                proof {
                    if parsed_decimal(value@) is Some {
                        lemma_digits_grow(digits, i - start + 1);
                    }
                }
                return None;
            },
        }
        i = i + 1;
    }
    proof {
        assert(digits.take(i - start) =~= digits);
    }
    Some(number)
}

proof fn lemma_decimal_digits(value: nat)
    ensures
        decimal(value).len() > 0,
        forall|i: int| 0 <= i < decimal(value).len() ==> is_digit(#[trigger] decimal(value)[i]),
        digits_value(decimal(value)) == value,
    decreases value,
{
    let text = decimal(value);
    if value < 10 {
        assert(text.drop_last() =~= Seq::empty());
        assert(digits_value(text) == digits_value(text.drop_last()) * 10 + digit_value(
            text.last(),
        ));
    } else {
        lemma_decimal_digits(value / 10);
        assert(text.drop_last() =~= decimal(value / 10));
    }
}

/// A number is read back from its decimal notation.
pub proof fn lemma_decimal_roundtrip(value: u64)
    ensures
        parsed_decimal(decimal(value as nat)) == Some(value as int),
        forall|i: int|
            0 <= i < decimal(value as nat).len() ==> is_digit(
                #[trigger] decimal(value as nat)[i],
            ),
{
    lemma_decimal_digits(value as nat);
    assert(is_digit(decimal(value as nat)[0]));
}

/// A text without the separator is one part.
pub proof fn lemma_split_single(value: Seq<char>, separator: char)
    requires
        !value.contains(separator),
    ensures
        split_on(value, separator) == seq![value],
    decreases value.len(),
{
    if value.len() > 0 {
        let front = value.drop_last();
        assert(!front.contains(separator)) by {
            if front.contains(separator) {
                let k = choose|k: int| 0 <= k < front.len() && front[k] == separator;
                assert(value[k] == separator);
            }
        }
        assert(value[value.len() - 1] != separator);
        lemma_split_single(front, separator);
        assert(front.push(value.last()) =~= value);
        assert(split_on(value, separator) =~= seq![value]);
    } else {
        assert(value =~= Seq::empty());
    }
}

/// What follows the last separator is the last part.
pub proof fn lemma_split_last(head: Seq<char>, tail: Seq<char>, separator: char)
    requires
        !tail.contains(separator),
    ensures
        split_on(head + seq![separator] + tail, separator) == split_on(head, separator).push(tail),
    decreases tail.len(),
{
    let whole = head + seq![separator] + tail;
    if tail.len() == 0 {
        assert(whole.drop_last() =~= head);
        assert(whole.last() == separator);
        assert(tail =~= Seq::empty());
    } else {
        let front = tail.drop_last();
        assert(!front.contains(separator)) by {
            if front.contains(separator) {
                let k = choose|k: int| 0 <= k < front.len() && front[k] == separator;
                assert(tail[k] == separator);
            }
        }
        assert(tail[tail.len() - 1] != separator);
        lemma_split_last(head, front, separator);
        assert(whole.drop_last() =~= head + seq![separator] + front);
        assert(whole.last() == tail.last());
        let parts = split_on(head, separator);
        assert(parts.push(front).drop_last() =~= parts);
        assert(front.push(tail.last()) =~= tail);
    }
}

/// Joining two texts joins the last part of one with the first part of the other.
pub proof fn lemma_split_count(head: Seq<char>, tail: Seq<char>, separator: char)
    ensures
        split_on(head + tail, separator).len() == split_on(head, separator).len() + split_on(
            tail,
            separator,
        ).len() - 1,
        tail.contains(separator) ==> split_on(tail, separator).len() >= 2,
    decreases tail.len(),
{
    lemma_split_nonempty(head, separator);
    if tail.len() == 0 {
        assert(head + tail =~= head);
    } else {
        let front = tail.drop_last();
        lemma_split_count(head, front, separator);
        lemma_split_nonempty(front, separator);
        lemma_split_nonempty(head + front, separator);
        assert((head + tail).drop_last() =~= head + front);
        assert((head + tail).last() == tail.last());
        if tail.contains(separator) && tail.last() != separator {
            let k = choose|k: int| 0 <= k < tail.len() && tail[k] == separator;
            assert(front[k] == separator);
        }
    }
}

} // verus!
