//! Identifier and path text: the spelling rules for the names the engine
//! accepts in its configuration, and the derivation of names for generated
//! items (snake-case dispatch names, marker type names).

use vstd::prelude::*;
use vstd::string::*;

verus! {

/// Relies on String::push: appends the given character to the end of the string.
pub assume_specification[ String::push ](s: &mut String, c: char)
    ensures
        final(s)@ == old(s)@.push(c),
;

pub open spec fn is_lower(c: char) -> bool {
    97 <= c as u32 && c as u32 <= 122
}

pub open spec fn is_upper(c: char) -> bool {
    65 <= c as u32 && c as u32 <= 90
}

pub open spec fn is_digit(c: char) -> bool {
    48 <= c as u32 && c as u32 <= 57
}

/// A character that may open an identifier: an ASCII letter or an underscore.
pub open spec fn is_ident_start(c: char) -> bool {
    is_lower(c) || is_upper(c) || c == '_'
}

/// A character that may continue an identifier.
pub open spec fn is_ident_continue(c: char) -> bool {
    is_ident_start(c) || is_digit(c)
}

/// A nonempty run of identifier characters whose first character is no digit.
pub open spec fn is_identifier(s: Seq<char>) -> bool {
    &&& s.len() > 0
    &&& is_ident_start(s[0])
    &&& forall|i: int| 1 <= i < s.len() ==> is_ident_continue(#[trigger] s[i])
}

/// Length of the longest colon-free prefix of `s`.
pub open spec fn segment_len(s: Seq<char>) -> int
    decreases s.len(),
{
    if s.len() == 0 {
        0
    } else if s[0] == ':' {
        0
    } else {
        1 + segment_len(s.skip(1))
    }
}

/// A module path: identifier segments joined by `::`.
pub open spec fn is_module_path(s: Seq<char>) -> bool
    decreases s.len(),
    via is_module_path_decreases
{
    let k: int = segment_len(s);
    if k == s.len() {
        is_identifier(s)
    } else {
        &&& is_identifier(s.take(k))
        &&& k + 2 <= s.len()
        &&& s[k] == ':'
        &&& s[k + 1] == ':'
        &&& is_module_path(s.skip(k + 2))
    }
}

#[via_fn]
proof fn is_module_path_decreases(s: Seq<char>) {
    lemma_segment_len(s);
}

/// The maximal colon-free prefix is exactly characterized by its bound.
proof fn lemma_segment_len(s: Seq<char>)
    ensures
        0 <= segment_len(s) <= s.len(),
        forall|j: int| 0 <= j < segment_len(s) ==> s[j] != ':',
        segment_len(s) < s.len() ==> s[segment_len(s)] == ':',
    decreases s.len(),
{
    if s.len() == 0 {
    } else if s[0] == ':' {
    } else {
        lemma_segment_len(s.skip(1));
        assert forall|j: int| 0 <= j < segment_len(s) implies s[j] != ':' by {
            if j > 0 {
                assert(s.skip(1)[j - 1] != ':');
            }
        }
        if segment_len(s) < s.len() {
            assert(s.skip(1)[segment_len(s) - 1] == ':');
        }
    }
}

/// Any colon-free prefix bounded by a colon (or the end) is the maximal one.
proof fn lemma_segment_len_unique(s: Seq<char>, k: int)
    requires
        0 <= k <= s.len(),
        forall|j: int| 0 <= j < k ==> s[j] != ':',
        k < s.len() ==> s[k] == ':',
    ensures
        segment_len(s) == k,
    decreases s.len(),
{
    if s.len() == 0 {
    } else if s[0] == ':' {
        assert(k == 0);
    } else {
        assert(k > 0);
        assert forall|j: int| 0 <= j < k - 1 implies s.skip(1)[j] != ':' by {
            assert(s[j + 1] != ':');
        }
        lemma_segment_len_unique(s.skip(1), k - 1);
    }
}

pub fn check_ident_start(c: char) -> (r: bool)
    ensures
        r == is_ident_start(c),
{
    let u = c as u32;
    (97 <= u && u <= 122) || (65 <= u && u <= 90) || c == '_'
}

pub fn check_ident_continue(c: char) -> (r: bool)
    ensures
        r == is_ident_continue(c),
{
    let u = c as u32;
    check_ident_start(c) || (48 <= u && u <= 57)
}

/// Decides whether `s` is spelled as a single identifier.
pub fn check_identifier(s: &str) -> (r: bool)
    ensures
        r == is_identifier(s@),
{
    let n = s.unicode_len();
    if n == 0 {
        return false;
    }
    if !check_ident_start(s.get_char(0)) {
        return false;
    }
    let mut i: usize = 1;
    while i < n
        invariant
            1 <= i <= n,
            n == s@.len(),
            is_ident_start(s@[0]),
            forall|j: int| 1 <= j < i ==> is_ident_continue(#[trigger] s@[j]),
        decreases n - i,
    {
        if !check_ident_continue(s.get_char(i)) {
            return false;
        }
        i += 1;
    }
    true
}

/// Decides whether `s` is spelled as a module path (`seg` or `seg::…::seg`).
pub fn check_module_path(s: &str) -> (r: bool)
    ensures
        r == is_module_path(s@),
{
    let n = s.unicode_len();
    let mut pos: usize = 0;
    proof {
        assert(s@.skip(0) =~= s@);
    }
    loop
        invariant
            0 <= pos <= n,
            n == s@.len(),
            is_module_path(s@) == is_module_path(s@.skip(pos as int)),
        decreases n - pos,
    {
        let ghost rest = s@.skip(pos as int);
        // Find the end of the current segment: the next ':' or the end.
        let mut end: usize = pos;
        while end < n && s.get_char(end) != ':'
            invariant
                pos <= end <= n,
                n == s@.len(),
                forall|j: int| pos <= j < end ==> s@[j] != ':',
            decreases n - end,
        {
            end += 1;
        }
        proof {
            assert forall|j: int| 0 <= j < end - pos implies rest[j] != ':' by {
                assert(s@[pos + j] != ':');
            }
            if end < n {
                assert(rest[end - pos] == ':');
            }
            lemma_segment_len_unique(rest, end - pos);
        }
        let seg = s.substring_char(pos, end);
        let seg_ok = check_identifier(seg);
        proof {
            assert(seg@ =~= rest.take(end - pos));
        }
        if end == n {
            proof {
                assert(rest.take(end - pos) =~= rest);
            }
            return seg_ok;
        }
        if !seg_ok {
            return false;
        }
        // A segment boundary must be a full `::` separator.
        if end + 1 >= n || s.get_char(end + 1) != ':' {
            return false;
        }
        proof {
            assert(rest[end - pos] == ':');
            assert(rest[end + 1 - pos] == ':');
            assert(rest.skip(end + 2 - pos) =~= s@.skip(end as int + 2));
        }
        pos = end + 2;
    }
}

/// The ASCII lowering of one character: upper-case letters drop to lower case.
pub open spec fn spec_lower(c: char) -> char {
    if is_upper(c) {
        ((c as u32 + 32) as u8) as char
    } else {
        c
    }
}

pub fn lower_char(c: char) -> (r: char)
    ensures
        r == spec_lower(c),
{
    let u = c as u32;
    if 65 <= u && u <= 90 {
        ((u + 32) as u8) as char
    } else {
        c
    }
}

/// The snake-case image of the characters after the first: an upper-case
/// letter becomes an underscore followed by its lower-case form.
pub open spec fn snake_tail(s: Seq<char>) -> Seq<char>
    decreases s.len(),
{
    if s.len() == 0 {
        Seq::<char>::empty()
    } else if is_upper(s[0]) {
        seq!['_', spec_lower(s[0])] + snake_tail(s.skip(1))
    } else {
        seq![s[0]] + snake_tail(s.skip(1))
    }
}

/// The snake-case image of a whole name: the first character is lowered
/// without a leading underscore; the rest follow `snake_tail`.
pub open spec fn snake_of(s: Seq<char>) -> Seq<char> {
    if s.len() == 0 {
        Seq::<char>::empty()
    } else {
        seq![spec_lower(s[0])] + snake_tail(s.skip(1))
    }
}

proof fn lemma_snake_tail_concat(a: Seq<char>, b: Seq<char>)
    ensures
        snake_tail(a + b) == snake_tail(a) + snake_tail(b),
    decreases a.len(),
{
    if a.len() == 0 {
        assert(a + b =~= b);
        assert(snake_tail(a) + snake_tail(b) =~= snake_tail(b));
    } else {
        assert((a + b).skip(1) =~= a.skip(1) + b);
        lemma_snake_tail_concat(a.skip(1), b);
        if is_upper(a[0]) {
            assert(seq!['_', spec_lower(a[0])] + (snake_tail(a.skip(1)) + snake_tail(b)) =~= (
            seq!['_', spec_lower(a[0])] + snake_tail(a.skip(1))) + snake_tail(b));
        } else {
            assert(seq![a[0]] + (snake_tail(a.skip(1)) + snake_tail(b)) =~= (seq![a[0]]
                + snake_tail(a.skip(1))) + snake_tail(b));
        }
    }
}

proof fn lemma_snake_tail_single(c: char)
    ensures
        snake_tail(seq![c]) == if is_upper(c) {
            seq!['_', spec_lower(c)]
        } else {
            seq![c]
        },
{
    assert(seq![c].skip(1) =~= Seq::<char>::empty());
    assert(snake_tail(Seq::<char>::empty()) =~= Seq::<char>::empty());
    if is_upper(c) {
        assert(snake_tail(seq![c]) =~= seq!['_', spec_lower(c)]);
    } else {
        assert(snake_tail(seq![c]) =~= seq![c]);
    }
}

/// Converts a type name to its snake-case form, `MyEnum` to `my_enum`.
pub fn to_snake_case(s: &str) -> (r: String)
    ensures
        r@ == snake_of(s@),
{
    let n = s.unicode_len();
    let mut out = String::new();
    if n == 0 {
        return out;
    }
    out.push(lower_char(s.get_char(0)));
    proof {
        assert(out@ =~= seq![spec_lower(s@[0])] + snake_tail(s@.skip(1).take(0)));
    }
    let mut i: usize = 1;
    while i < n
        invariant
            1 <= i <= n,
            n == s@.len(),
            out@ == seq![spec_lower(s@[0])] + snake_tail(s@.skip(1).take(i - 1)),
        decreases n - i,
    {
        let c = s.get_char(i);
        let ghost done = s@.skip(1).take(i - 1);
        if is_upper_exec(c) {
            out.push('_');
        }
        out.push(lower_char(c));
        proof {
            let next = s@.skip(1).take(i as int);
            assert(next =~= done + seq![s@[i as int]]);
            lemma_snake_tail_concat(done, seq![s@[i as int]]);
            lemma_snake_tail_single(s@[i as int]);
        }
        i += 1;
    }
    proof {
        assert(s@.skip(1).take(n - 1) =~= s@.skip(1));
    }
    out
}

pub fn is_upper_exec(c: char) -> (r: bool)
    ensures
        r == is_upper(c),
{
    let u = c as u32;
    65 <= u && u <= 90
}

/// Appends `suffix` to a copy of `base`.
pub fn concat_names(base: &str, suffix: &str) -> (r: String)
    ensures
        r@ == base@ + suffix@,
{
    let mut out = base.to_owned();
    out.append(suffix);
    out
}

} // verus!
