//! Names as text: their order, and the forms in which they are compared.
//!
//! Names are ordered as `String` orders them: by the bytes of their UTF-8
//! encoding, compared position by position, a proper prefix coming first.
//! They are matched without regard to case by their lowercase forms.

use vstd::prelude::*;
use vstd::std_specs::iter::IteratorSpec;
use vstd::string::StrSliceExecFns;
use vstd::utf8::*;

verus! {

/// `a` and `b` agree on their first `k` bytes.
pub open spec fn agree_up_to(a: Seq<u8>, b: Seq<u8>, k: int) -> bool {
    &&& 0 <= k <= a.len()
    &&& k <= b.len()
    &&& forall|i: int| 0 <= i < k ==> a[i] == b[i]
}

/// `a` and `b` part ways at position `k`, and `a` is the smaller there: it
/// ends at `k` while `b` goes on, or holds the smaller byte.
pub open spec fn smaller_at(a: Seq<u8>, b: Seq<u8>, k: int) -> bool {
    &&& agree_up_to(a, b, k)
    &&& k < b.len()
    &&& k < a.len() ==> a[k] < b[k]
}

/// Lexicographic order of byte strings.
pub open spec fn bytes_lt(a: Seq<u8>, b: Seq<u8>) -> bool {
    exists|k: int| smaller_at(a, b, k)
}

/// The natural order of names: that of their UTF-8 encodings.
pub open spec fn name_lt(a: Seq<char>, b: Seq<char>) -> bool {
    bytes_lt(encode_utf8(a), encode_utf8(b))
}

/// How one name stands to another.
#[derive(Clone, Copy, PartialEq, Eq, Structural, Debug)]
pub enum NameOrder {
    Before,
    Same,
    After,
}

/// What `compare_names` returns for two names.
pub open spec fn name_order(a: Seq<char>, b: Seq<char>) -> NameOrder {
    if a == b {
        NameOrder::Same
    } else if name_lt(a, b) {
        NameOrder::Before
    } else {
        NameOrder::After
    }
}

/// No byte string comes before itself.
pub proof fn lemma_bytes_lt_irreflexive(a: Seq<u8>)
    ensures
        !bytes_lt(a, a),
{
}

/// If `a` comes before `b`, `b` does not come before `a`.
pub proof fn lemma_bytes_lt_asymmetric(a: Seq<u8>, b: Seq<u8>)
    requires
        bytes_lt(a, b),
    ensures
        !bytes_lt(b, a),
{
    let k = choose|k: int| smaller_at(a, b, k);
    if bytes_lt(b, a) {
        let j = choose|j: int| smaller_at(b, a, j);
        if j < k {
            assert(a[j] == b[j]);
        } else if k < j {
            assert(b[k] == a[k]);
        }
    }
}

/// The order of byte strings is transitive.
pub proof fn lemma_bytes_lt_transitive(a: Seq<u8>, b: Seq<u8>, c: Seq<u8>)
    requires
        bytes_lt(a, b),
        bytes_lt(b, c),
    ensures
        bytes_lt(a, c),
{
    let k = choose|k: int| smaller_at(a, b, k);
    let j = choose|j: int| smaller_at(b, c, j);
    let m = if k <= j { k } else { j };
    assert forall|i: int| 0 <= i < m implies a[i] == c[i] by {
        assert(a[i] == b[i]);
        assert(b[i] == c[i]);
    }
    if k < j {
        assert(b[k] == c[k]);
    } else if j < k {
        assert(a[j] == b[j]);
    }
    assert(smaller_at(a, c, m));
}

/// Two byte strings that agree up to the end of both are the same string.
pub proof fn lemma_agree_to_the_end(a: Seq<u8>, b: Seq<u8>)
    requires
        a.len() == b.len(),
        agree_up_to(a, b, a.len() as int),
    ensures
        a == b,
{
    assert(a =~= b);
}

/// Of two different byte strings one comes before the other.
pub proof fn lemma_bytes_lt_total(a: Seq<u8>, b: Seq<u8>)
    ensures
        a == b || bytes_lt(a, b) || bytes_lt(b, a),
{
    lemma_first_difference(a, b, 0);
}

proof fn lemma_first_difference(a: Seq<u8>, b: Seq<u8>, k: int)
    requires
        agree_up_to(a, b, k),
    ensures
        a == b || bytes_lt(a, b) || bytes_lt(b, a),
    decreases a.len() - k,
{
    if k == a.len() {
        if k == b.len() {
            lemma_agree_to_the_end(a, b);
        } else {
            assert(smaller_at(a, b, k));
        }
    } else if k == b.len() {
        assert(agree_up_to(b, a, k));
        assert(smaller_at(b, a, k));
    } else if a[k] < b[k] {
        assert(smaller_at(a, b, k));
    } else if b[k] < a[k] {
        assert(agree_up_to(b, a, k));
        assert(smaller_at(b, a, k));
    } else {
        lemma_first_difference(a, b, k + 1);
    }
}

/// Names with the same encoding are the same name.
pub proof fn lemma_encoding_tells_names_apart(a: Seq<char>, b: Seq<char>)
    requires
        encode_utf8(a) == encode_utf8(b),
    ensures
        a == b,
{
    encode_utf8_decode_utf8(a);
    encode_utf8_decode_utf8(b);
}

/// No name comes before itself.
pub proof fn lemma_name_lt_irreflexive(a: Seq<char>)
    ensures
        !name_lt(a, a),
{
    lemma_bytes_lt_irreflexive(encode_utf8(a));
}

/// If `a` comes before `b`, `b` does not come before `a`.
pub proof fn lemma_name_lt_asymmetric(a: Seq<char>, b: Seq<char>)
    requires
        name_lt(a, b),
    ensures
        !name_lt(b, a),
        a != b,
{
    lemma_bytes_lt_asymmetric(encode_utf8(a), encode_utf8(b));
}

/// The order of names is transitive.
pub proof fn lemma_name_lt_transitive(a: Seq<char>, b: Seq<char>, c: Seq<char>)
    requires
        name_lt(a, b),
        name_lt(b, c),
    ensures
        name_lt(a, c),
{
    lemma_bytes_lt_transitive(encode_utf8(a), encode_utf8(b), encode_utf8(c));
}

/// Of two different names one comes before the other.
pub proof fn lemma_name_lt_total(a: Seq<char>, b: Seq<char>)
    ensures
        a == b || name_lt(a, b) || name_lt(b, a),
{
    lemma_bytes_lt_total(encode_utf8(a), encode_utf8(b));
    if encode_utf8(a) == encode_utf8(b) {
        lemma_encoding_tells_names_apart(a, b);
    }
}

/// Compares two names in their natural order.
pub fn compare_names(a: &str, b: &str) -> (order: NameOrder)
    ensures
        order == name_order(a@, b@),
{
    let x = a.as_bytes();
    let y = b.as_bytes();
    let mut i: usize = 0;
    while i < x.len() && i < y.len()
        invariant
            x@ == encode_utf8(a@),
            y@ == encode_utf8(b@),
            agree_up_to(x@, y@, i as int),
        decreases x.len() - i,
    {
        if x[i] < y[i] {
            proof {
                assert(smaller_at(x@, y@, i as int));
                lemma_name_lt_asymmetric(a@, b@);
            }
            return NameOrder::Before;
        }
        if x[i] > y[i] {
            proof {
                assert(agree_up_to(y@, x@, i as int));
                assert(smaller_at(y@, x@, i as int));
                lemma_name_lt_asymmetric(b@, a@);
            }
            return NameOrder::After;
        }
        i += 1;
    }
    if i < y.len() {
        proof {
            assert(smaller_at(x@, y@, i as int));
            lemma_name_lt_asymmetric(a@, b@);
        }
        NameOrder::Before
    } else if i < x.len() {
        proof {
            assert(agree_up_to(y@, x@, i as int));
            assert(smaller_at(y@, x@, i as int));
            lemma_name_lt_asymmetric(b@, a@);
        }
        NameOrder::After
    } else {
        proof {
            lemma_agree_to_the_end(x@, y@);
            lemma_encoding_tells_names_apart(a@, b@);
        }
        NameOrder::Same
    }
}

/// Whether the two names are the same.
pub fn same_name(a: &str, b: &str) -> (same: bool)
    ensures
        same == (a@ == b@),
{
    match compare_names(a, b) {
        NameOrder::Same => true,
        _ => false,
    }
}

/// The names as sequences of characters.
pub open spec fn name_views(names: Seq<String>) -> Seq<Seq<char>> {
    names.map_values(|s: String| s@)
}

/// What `str::to_lowercase` returns for `s`.
pub uninterp spec fn lowercase_of(s: Seq<char>) -> Seq<char>;

/// `str::to_lowercase` of std, by which names are compared without regard
/// to case. Trusted: the lowercase form depends on the text alone.
#[verifier::external_body]
pub(crate) fn to_lowercase(s: &str) -> (folded: String)
    ensures
        folded@ == lowercase_of(s@),
{
    s.to_lowercase()
}

/// What `Inflector::to_title_case` returns for `s`.
pub uninterp spec fn title_case_of(s: Seq<char>) -> Seq<char>;

/// `Inflector::to_title_case` of the crate `Inflector`, which writes a name
/// as words with a capital each. Trusted: the title-case form depends on
/// the text alone.
#[verifier::external_body]
pub(crate) fn to_title_case(s: &str) -> (titled: String)
    ensures
        titled@ == title_case_of(s@),
{
    inflector::Inflector::to_title_case(s)
}

/// Whether `s` begins with `prefix`.
pub fn starts_with(s: &str, prefix: &str) -> (begins: bool)
    ensures
        begins == prefix@.is_prefix_of(s@),
{
    broadcast use vstd::string::group_string_axioms;

    let mut rest = s.chars();
    let mut wanted = prefix.chars();
    let ghost mut i: int = 0;
    loop
        invariant
            0 <= i <= s@.len(),
            i <= prefix@.len(),
            rest.remaining() == s@.skip(i),
            wanted.remaining() == prefix@.skip(i),
            forall|j: int| 0 <= j < i ==> s@[j] == prefix@[j],
        decreases prefix@.len() - i,
    {
        let ghost rest_before = rest;
        let ghost wanted_before = wanted;
        match wanted.next() {
            None => {
                assert(prefix@ =~= s@.subrange(0, prefix@.len() as int));
                return true;
            },
            Some(p) => match rest.next() {
                None => {
                    return false;
                },
                Some(c) => {
                    assert(p == prefix@[i] && c == s@[i]);
                    if c != p {
                        return false;
                    }
                    proof {
                        assert(s@.skip(i).drop_first() =~= s@.skip(i + 1));
                        assert(prefix@.skip(i).drop_first() =~= prefix@.skip(i + 1));
                        i = i + 1;
                    }
                },
            },
        }
    }
}

/// What `char::is_whitespace` returns for `c`: whether the character is
/// white space.
pub uninterp spec fn white_space(c: char) -> bool;

/// `char::is_whitespace` of std. Trusted: whether a character is white
/// space depends on the character alone.
#[verifier::external_body]
pub(crate) fn is_whitespace(c: char) -> (white: bool)
    ensures
        white == white_space(c),
{
    c.is_whitespace()
}

/// The text without the white space that it begins with.
pub open spec fn trimmed_start(s: Seq<char>) -> Seq<char>
    decreases s.len(),
{
    if s.len() > 0 && white_space(s[0]) {
        trimmed_start(s.drop_first())
    } else {
        s
    }
}

/// The text without the white space that it ends with.
pub open spec fn trimmed_end(s: Seq<char>) -> Seq<char>
    decreases s.len(),
{
    if s.len() > 0 && white_space(s.last()) {
        trimmed_end(s.drop_last())
    } else {
        s
    }
}

/// The text without the white space at its two ends, as `str::trim` gives
/// it.
pub open spec fn trimmed_of(s: Seq<char>) -> Seq<char> {
    trimmed_end(trimmed_start(s))
}

/// Where the first `from` characters are white space and the next is not,
/// the text without the white space it begins with starts at `from`.
pub proof fn lemma_trimmed_start(s: Seq<char>, from: int)
    requires
        0 <= from <= s.len(),
        forall|j: int| 0 <= j < from ==> white_space(s[j]),
        from < s.len() ==> !white_space(s[from]),
    ensures
        trimmed_start(s) == s.skip(from),
    decreases from,
{
    if from == 0 {
        assert(s.skip(0) =~= s);
    } else {
        let rest = s.drop_first();
        assert forall|j: int| 0 <= j < from - 1 implies white_space(rest[j]) by {
            assert(rest[j] == s[j + 1]);
        }
        lemma_trimmed_start(rest, from - 1);
        assert(rest.skip(from - 1) =~= s.skip(from));
    }
}

/// Where the characters from `to` on are white space and the one before is
/// not, the text without the white space it ends with stops at `to`.
pub proof fn lemma_trimmed_end(s: Seq<char>, to: int)
    requires
        0 <= to <= s.len(),
        forall|j: int| to <= j < s.len() ==> white_space(s[j]),
        to > 0 ==> !white_space(s[to - 1]),
    ensures
        trimmed_end(s) == s.take(to),
    decreases s.len() - to,
{
    if to == s.len() {
        assert(s.take(to) =~= s);
    } else {
        let rest = s.drop_last();
        assert forall|j: int| to <= j < rest.len() implies white_space(rest[j]) by {
            assert(rest[j] == s[j]);
        }
        lemma_trimmed_end(rest, to);
        assert(rest.take(to) =~= s.take(to));
    }
}

/// The trimmed text is one part of the text, from `from` to `to`: all
/// before and all after it is white space, and it neither begins nor ends
/// with white space. So it is no longer than the text.
pub proof fn lemma_trimmed_of(s: Seq<char>) -> (part: (int, int))
    ensures
        0 <= part.0 <= part.1 <= s.len(),
        trimmed_of(s) == s.subrange(part.0, part.1),
        trimmed_of(s).len() <= s.len(),
        forall|j: int| 0 <= j < part.0 ==> white_space(s[j]),
        forall|j: int| part.1 <= j < s.len() ==> white_space(s[j]),
        part.0 < part.1 ==> !white_space(s[part.0]) && !white_space(s[part.1 - 1]),
{
    let from = first_black(s, 0);
    lemma_first_black(s, 0);
    lemma_trimmed_start(s, from);
    let tail = s.skip(from);
    let kept = last_black(tail, tail.len() as int);
    lemma_last_black(tail, tail.len() as int);
    lemma_trimmed_end(tail, kept);
    assert(tail.take(kept) =~= s.subrange(from, from + kept));
    assert forall|j: int| from + kept <= j < s.len() implies white_space(s[j]) by {
        assert(tail[j - from] == s[j]);
    }
    if kept > 0 {
        assert(tail[kept - 1] == s[from + kept - 1]);
    }
    (from, from + kept)
}

/// The index of the first character from `at` on that is no white space,
/// or the length of the text if there is none.
pub open spec fn first_black(s: Seq<char>, at: int) -> int
    decreases s.len() - at,
{
    if 0 <= at < s.len() && white_space(s[at]) {
        first_black(s, at + 1)
    } else {
        at
    }
}

/// One past the index of the last character before `at` that is no white
/// space, or zero if there is none.
pub open spec fn last_black(s: Seq<char>, at: int) -> int
    decreases at,
{
    if 0 < at <= s.len() && white_space(s[at - 1]) {
        last_black(s, at - 1)
    } else {
        at
    }
}

proof fn lemma_first_black(s: Seq<char>, at: int)
    requires
        0 <= at <= s.len(),
    ensures
        at <= first_black(s, at) <= s.len(),
        forall|j: int| at <= j < first_black(s, at) ==> white_space(s[j]),
        first_black(s, at) < s.len() ==> !white_space(s[first_black(s, at)]),
    decreases s.len() - at,
{
    if at < s.len() && white_space(s[at]) {
        lemma_first_black(s, at + 1);
    }
}

proof fn lemma_last_black(s: Seq<char>, at: int)
    requires
        0 <= at <= s.len(),
    ensures
        0 <= last_black(s, at) <= at,
        forall|j: int| last_black(s, at) <= j < at ==> white_space(s[j]),
        last_black(s, at) > 0 ==> !white_space(s[last_black(s, at) - 1]),
    decreases at,
{
    if 0 < at && white_space(s[at - 1]) {
        lemma_last_black(s, at - 1);
    }
}

/// The text without the white space at its two ends.
pub fn trim(s: &str) -> (trimmed: &str)
    ensures
        trimmed@ == trimmed_of(s@),
{
    broadcast use vstd::string::group_string_axioms;

    let n: usize = s.unicode_len();
    let mut rest = s.chars();
    let mut i: usize = 0;
    let mut found: bool = false;
    let mut first: usize = 0;
    let mut last: usize = 0;
    loop
        invariant
            n == s@.len(),
            i <= n,
            rest.remaining() == s@.skip(i as int),
            !found ==> first == 0 && last == 0 && forall|j: int| 0 <= j < i ==> white_space(s@[j]),
            found ==> {
                &&& first < last <= i
                &&& forall|j: int| 0 <= j < first ==> white_space(s@[j])
                &&& !white_space(s@[first as int])
                &&& !white_space(s@[last - 1])
                &&& forall|j: int| last <= j < i ==> white_space(s@[j])
            },
        decreases n - i,
    {
        match rest.next() {
            None => {
                proof {
                    let text = s@;
                    if found {
                        lemma_trimmed_start(text, first as int);
                        let tail = text.skip(first as int);
                        assert forall|j: int| last - first <= j < tail.len() implies white_space(
                            tail[j],
                        ) by {
                            assert(tail[j] == text[j + first]);
                        }
                        assert(tail[last - first - 1] == text[last - 1]);
                        lemma_trimmed_end(tail, last - first);
                        assert(tail.take(last - first) =~= text.subrange(
                            first as int,
                            last as int,
                        ));
                    } else {
                        lemma_trimmed_start(text, text.len() as int);
                        assert(text.skip(text.len() as int) =~= text.subrange(0, 0));
                    }
                }
                return s.substring_char(first, last);
            },
            Some(c) => {
                proof {
                    assert(c == s@[i as int]);
                    assert(s@.skip(i as int).drop_first() =~= s@.skip(i + 1));
                }
                if !is_whitespace(c) {
                    if !found {
                        first = i;
                        found = true;
                    }
                    last = i + 1;
                }
                i += 1;
            },
        }
    }
}

/// The number of bytes of the text in UTF-8, which is what `len` counts.
pub open spec fn byte_len(s: Seq<char>) -> nat {
    encode_utf8(s).len()
}

/// The index of the first of `names` that is `name`.
pub fn first_equal(names: &Vec<String>, name: &str) -> (at: Option<usize>)
    ensures
        match at {
            Some(i) => name_views(names@).index_of_first(name@) == Some(i as int) && i
                < names.len(),
            None => name_views(names@).index_of_first(name@) is None,
        },
{
    let ghost views = name_views(names@);
    proof {
        views.index_of_first_ensures(name@);
    }
    let mut i: usize = 0;
    while i < names.len()
        invariant
            i <= names.len(),
            views == name_views(names@),
            forall|j: int| 0 <= j < i ==> views[j] != name@,
        decreases names.len() - i,
    {
        if same_name(names[i].as_str(), name) {
            proof {
                assert(views[i as int] == name@);
                assert(views.contains(name@));
                views.index_of_first_ensures(name@);
            }
            return Some(i);
        }
        i += 1;
    }
    proof {
        views.index_of_first_ensures(name@);
        if views.contains(name@) {
            let j = choose|j: int| 0 <= j < views.len() && views[j] == name@;
            assert(views[j] != name@);
        }
    }
    None
}

} // verus!
