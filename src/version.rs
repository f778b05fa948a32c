use vstd::prelude::*;

verus! {

/// Why a version string was refused.
#[derive(Clone, Copy, Debug, PartialEq, Eq, Structural)]
pub enum VersionError {
    /// The part after the first `-` is empty or holds white space.
    InvalidDescription,
    /// The numbers part has more than three dot-separated components.
    TooManyComponents,
    /// A component is not a decimal number that fits in 32 bits.
    InvalidNumber,
}

/// A parsed version: `MAJOR.MINOR.PATCH` with an optional one-word
/// description.
#[derive(Debug)]
pub struct Version {
    pub major: u32,
    pub minor: u32,
    pub patch: u32,
    pub description: Option<String>,
}

/// The mathematical value of a [`Version`].
pub ghost struct VersionModel {
    pub major: u32,
    pub minor: u32,
    pub patch: u32,
    pub description: Option<Seq<char>>,
}

impl View for Version {
    type V = VersionModel;

    open spec fn view(&self) -> VersionModel {
        VersionModel {
            major: self.major,
            minor: self.minor,
            patch: self.patch,
            description: match self.description {
                Some(d) => Some(d@),
                None => None,
            },
        }
    }
}

/// Whether `c` is a decimal digit `0` to `9`.
pub open spec fn is_digit(c: char) -> bool {
    '0' <= c && c <= '9'
}

/// The value of the decimal digit `c`.
pub open spec fn digit_value(c: char) -> nat {
    (c as nat - '0' as nat) as nat
}

/// The value of a run of decimal digits, most significant first.
pub open spec fn digits_value(d: Seq<char>) -> nat
    decreases d.len(),
{
    if d.len() == 0 {
        0
    } else {
        digits_value(d.drop_last()) * 10 + digit_value(d.last())
    }
}

/// The digits of a number's text once an optional leading `+` is taken off.
pub open spec fn unsigned_digits(t: Seq<char>) -> Seq<char> {
    if t.len() > 0 && t[0] == '+' {
        t.drop_first()
    } else {
        t
    }
}

/// The `u32` that the text `t` denotes: an optional `+` followed by one or
/// more decimal digits whose value fits in 32 bits; `None` for any other
/// text.
pub open spec fn number_of(t: Seq<char>) -> Option<u32> {
    let d = unsigned_digits(t);
    if d.len() > 0 && (forall|i: int| 0 <= i < d.len() ==> is_digit(#[trigger] d[i]))
        && digits_value(d) <= u32::MAX {
        Some(digits_value(d) as u32)
    } else {
        None
    }
}

/// Whether `c` has the Unicode `White_Space` property.
pub open spec fn is_white_space(c: char) -> bool {
    ||| ('\t' <= c && c <= '\r')
    ||| c == ' '
    ||| c == '\u{85}'
    ||| c == '\u{a0}'
    ||| c == '\u{1680}'
    ||| ('\u{2000}' <= c && c <= '\u{200a}')
    ||| c == '\u{2028}'
    ||| c == '\u{2029}'
    ||| c == '\u{202f}'
    ||| c == '\u{205f}'
    ||| c == '\u{3000}'
}

/// A description is one token: at least one character, none of them white
/// space.
pub open spec fn is_valid_description(d: Seq<char>) -> bool {
    d.len() > 0 && forall|i: int| 0 <= i < d.len() ==> !is_white_space(#[trigger] d[i])
}

/// The index of the first `c` in `s`, if there is one.
pub open spec fn first_index_of(s: Seq<char>, c: char) -> Option<int>
    decreases s.len(),
{
    if s.len() == 0 {
        None
    } else {
        match first_index_of(s.drop_last(), c) {
            Some(i) => Some(i),
            None => if s.last() == c {
                Some(s.len() - 1)
            } else {
                None
            },
        }
    }
}

/// `s` cut at every `sep`: the pieces between separators, in order, empty
/// ones included; always at least one piece.
pub open spec fn split_on(s: Seq<char>, sep: char) -> Seq<Seq<char>>
    decreases s.len(),
{
    if s.len() == 0 {
        seq![Seq::empty()]
    } else {
        let parts = split_on(s.drop_last(), sep);
        if s.last() == sep {
            parts.push(Seq::empty())
        } else {
            parts.update(parts.len() - 1, parts.last().push(s.last()))
        }
    }
}

/// The numbers part of a version string: all before the first `-`.
pub open spec fn numbers_part(s: Seq<char>) -> Seq<char> {
    match first_index_of(s, '-') {
        Some(h) => s.take(h),
        None => s,
    }
}

/// The description of a version string: all after the first `-`, if there
/// is a `-`.
pub open spec fn description_part(s: Seq<char>) -> Option<Seq<char>> {
    match first_index_of(s, '-') {
        Some(h) => Some(s.skip(h + 1)),
        None => None,
    }
}

/// The value of the `k`-th dot-separated component; a component that is not
/// there counts as zero.
pub open spec fn component_value(parts: Seq<Seq<char>>, k: int) -> Option<u32> {
    if k < parts.len() {
        number_of(parts[k])
    } else {
        Some(0)
    }
}

/// What a version string `MAJOR[.MINOR[.PATCH]][-DESCRIPTION]` stands for.
/// The checks come in this order: the description, the number of
/// components, then the major, minor and patch numbers.
pub open spec fn version_of(s: Seq<char>) -> Result<VersionModel, VersionError> {
    let desc = description_part(s);
    let parts = split_on(numbers_part(s), '.');
    if desc matches Some(d) && !is_valid_description(d) {
        Err(VersionError::InvalidDescription)
    } else if parts.len() > 3 {
        Err(VersionError::TooManyComponents)
    } else if component_value(parts, 0) is None
        || component_value(parts, 1) is None
        || component_value(parts, 2) is None {
        Err(VersionError::InvalidNumber)
    } else {
        Ok(VersionModel {
            major: component_value(parts, 0)->Some_0,
            minor: component_value(parts, 1)->Some_0,
            patch: component_value(parts, 2)->Some_0,
            description: desc,
        })
    }
}

/// A value of digits never decreases when more digits follow.
proof fn lemma_digits_value_prefix(d: Seq<char>, k: int)
    requires
        0 <= k <= d.len(),
    ensures
        digits_value(d.take(k)) <= digits_value(d),
    decreases d.len() - k,
{
    if k < d.len() {
        lemma_digits_value_prefix(d, k + 1);
        assert(d.take(k + 1).drop_last() =~= d.take(k));
    } else {
        assert(d.take(k) =~= d);
    }
}

/// Reads the characters `start..end` of `s` as a number; `None` where they
/// are not one or the number does not fit in 32 bits.
fn parse_number(s: &str, start: usize, end: usize) -> (r: Option<u32>)
    requires
        start <= end <= s@.len(),
    ensures
        r == number_of(s@.subrange(start as int, end as int)),
{
    let ghost t = s@.subrange(start as int, end as int);
    let mut i = start;
    if i < end && s.get_char(i) == '+' {
        i = i + 1;
    }
    let ghost d = unsigned_digits(t);
    let ghost first = i;
    assert(d =~= s@.subrange(first as int, end as int));
    if i == end {
        return None;
    }
    let mut value: u32 = 0;
    while i < end
        invariant
            start <= first <= i <= end <= s@.len(),
            t == s@.subrange(start as int, end as int),
            d == unsigned_digits(t),
            d.len() > 0,
            d =~= s@.subrange(first as int, end as int),
            forall|j: int| 0 <= j < i - first ==> is_digit(#[trigger] d[j]),
            value as nat == digits_value(d.take(i - first)),
        decreases end - i,
    {
        let c = s.get_char(i);
        if !('0' <= c && c <= '9') {
            assert(d[i - first] == c);
            return None;
        }
        let ghost k = i - first;
        assert(d.take(k + 1).drop_last() =~= d.take(k));
        let digit = (c as u32) - ('0' as u32);
        let next = match value.checked_mul(10) {
            Some(tens) => tens.checked_add(digit),
            None => None,
        };
        match next {
            Some(v) => value = v,
            None => {
                proof {
                    lemma_digits_value_prefix(d, k + 1);
                }
                return None;
            },
        }
        i = i + 1;
    }
    assert(d.take(end - first) =~= d);
    Some(value)
}

/// Whether `c` has the Unicode `White_Space` property.
fn white_space(c: char) -> (r: bool)
    ensures
        r == is_white_space(c),
{
    ('\t' <= c && c <= '\r') || c == ' ' || c == '\u{85}' || c == '\u{a0}' || c == '\u{1680}'
        || ('\u{2000}' <= c && c <= '\u{200a}') || c == '\u{2028}' || c == '\u{2029}'
        || c == '\u{202f}' || c == '\u{205f}' || c == '\u{3000}'
}

/// Whether the characters `start..` of `s` form a valid description.
fn valid_description(s: &str, start: usize) -> (r: bool)
    requires
        start <= s@.len(),
    ensures
        r == is_valid_description(s@.skip(start as int)),
{
    let n = s.unicode_len();
    let ghost d = s@.skip(start as int);
    if start == n {
        return false;
    }
    let mut i = start;
    while i < n
        invariant
            start <= i <= n == s@.len(),
            d == s@.skip(start as int),
            forall|j: int| 0 <= j < i - start ==> !is_white_space(#[trigger] d[j]),
        decreases n - i,
    {
        if white_space(s.get_char(i)) {
            assert(d[i - start] == s@[i as int]);
            return false;
        }
        i = i + 1;
    }
    true
}

/// The index of the first `-` in `s`, if there is one.
fn find_hyphen(s: &str) -> (r: Option<usize>)
    ensures
        match first_index_of(s@, '-') {
            Some(h) => r == Some(h as usize) && 0 <= h < s@.len(),
            None => r is None,
        },
{
    let n = s.unicode_len();
    let mut found: Option<usize> = None;
    let mut i: usize = 0;
    while i < n
        invariant
            i <= n == s@.len(),
            match first_index_of(s@.take(i as int), '-') {
                Some(h) => found == Some(h as usize) && 0 <= h < i,
                None => found is None,
            },
        decreases n - i,
    {
        assert(s@.take(i + 1).drop_last() =~= s@.take(i as int));
        if found.is_none() && s.get_char(i) == '-' {
            found = Some(i);
        }
        i = i + 1;
    }
    assert(s@.take(n as int) =~= s@);
    found
}

/// The bounds in `s` of the pieces of its first `end` characters cut at
/// every `.`, in order.
fn split_dots(s: &str, end: usize) -> (r: Vec<(usize, usize)>)
    requires
        end <= s@.len(),
    ensures
        r@.len() >= 1,
        r@.len() == split_on(s@.take(end as int), '.').len(),
        forall|k: int|
            #![trigger r@[k]]
            0 <= k < r@.len() ==> {
                &&& r@[k].0 <= r@[k].1 <= end
                &&& split_on(s@.take(end as int), '.')[k] == s@.subrange(
                    r@[k].0 as int,
                    r@[k].1 as int,
                )
            },
{
    let mut done: Vec<(usize, usize)> = Vec::new();
    let mut cur: usize = 0;
    let mut i: usize = 0;
    assert(s@.take(0) =~= Seq::<char>::empty());
    while i < end
        invariant
            i <= end <= s@.len(),
            cur <= i,
            split_on(s@.take(i as int), '.').len() == done@.len() + 1,
            split_on(s@.take(i as int), '.').last() == s@.subrange(cur as int, i as int),
            forall|k: int|
                #![trigger done@[k]]
                0 <= k < done@.len() ==> {
                    &&& done@[k].0 <= done@[k].1 <= i
                    &&& split_on(s@.take(i as int), '.')[k] == s@.subrange(
                        done@[k].0 as int,
                        done@[k].1 as int,
                    )
                },
        decreases end - i,
    {
        let ghost before = split_on(s@.take(i as int), '.');
        assert(s@.take(i + 1).drop_last() =~= s@.take(i as int));
        assert(s@.take(i + 1).last() == s@[i as int]);
        let ghost old_done = done@;
        let ghost after = split_on(s@.take(i + 1), '.');
        if s.get_char(i) == '.' {
            done.push((cur, i));
            cur = i + 1;
            assert(after == before.push(Seq::empty()));
            assert(s@.subrange(cur as int, cur as int) =~= Seq::<char>::empty());
            assert forall|k: int| 0 <= k < done@.len() implies done@[k].0 <= done@[k].1 <= i + 1
                && after[k] == s@.subrange(done@[k].0 as int, done@[k].1 as int) by {
                if k < old_done.len() {
                    assert(done@[k] == old_done[k]);
                } else {
                    assert(after[k] == before.last());
                }
            }
        } else {
            assert(after == before.update(before.len() - 1, before.last().push(s@[i as int])));
            assert(s@.subrange(cur as int, i as int).push(s@[i as int]) =~= s@.subrange(
                cur as int,
                i + 1,
            ));
            assert forall|k: int| 0 <= k < done@.len() implies done@[k].0 <= done@[k].1 <= i + 1
                && after[k] == s@.subrange(done@[k].0 as int, done@[k].1 as int) by {
                assert(after[k] == before[k]);
            }
        }
        i = i + 1;
    }
    let ghost whole = split_on(s@.take(end as int), '.');
    let ghost old_done = done@;
    done.push((cur, end));
    assert forall|k: int|
        0 <= k < done@.len() implies done@[k].0 <= done@[k].1 <= end && whole[k] == s@.subrange(
            done@[k].0 as int,
            done@[k].1 as int,
        )
    by {
        if k < old_done.len() {
            assert(done@[k] == old_done[k]);
        } else {
            assert(whole[k] == whole.last());
        }
    }
    done
}

impl Version {
    /// Parses `MAJOR[.MINOR[.PATCH]][-DESCRIPTION]`. The description is all
    /// after the first `-` and must be one token without white space; the
    /// rest is cut at every `.` into one to three components, each an
    /// unsigned 32-bit decimal number. Missing minor and patch numbers are
    /// zero.
    pub fn parse(s: &str) -> (r: Result<Version, VersionError>)
        ensures
            match version_of(s@) {
                Ok(m) => r matches Ok(v) && v@ == m,
                Err(e) => r == Err::<Version, VersionError>(e),
            },
    {
        let n = s.unicode_len();
        let hyphen = find_hyphen(s);
        let mut numbers_end = n;
        let mut description: Option<String> = None;
        if let Some(h) = hyphen {
            if !valid_description(s, h + 1) {
                return Err(VersionError::InvalidDescription);
            }
            numbers_end = h;
            description = Some(s.substring_char(h + 1, n).to_owned());
        }
        assert(numbers_part(s@) =~= s@.take(numbers_end as int));
        let parts = split_dots(s, numbers_end);
        if parts.len() > 3 {
            return Err(VersionError::TooManyComponents);
        }
        let major = match parse_number(s, parts[0].0, parts[0].1) {
            Some(v) => v,
            None => return Err(VersionError::InvalidNumber),
        };
        let minor = if parts.len() > 1 {
            match parse_number(s, parts[1].0, parts[1].1) {
                Some(v) => v,
                None => return Err(VersionError::InvalidNumber),
            }
        } else {
            0
        };
        let patch = if parts.len() > 2 {
            match parse_number(s, parts[2].0, parts[2].1) {
                Some(v) => v,
                None => return Err(VersionError::InvalidNumber),
            }
        } else {
            0
        };
        Ok(Version { major, minor, patch, description })
    }
}

} // verus!
