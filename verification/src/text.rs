use vstd::prelude::*;

verus! {

/// Whether two strings hold the same characters.
pub fn str_equals(a: &str, b: &str) -> (r: bool)
    ensures
        r == (a@ == b@),
{
    let n = a.unicode_len();
    if n != b.unicode_len() {
        return false;
    }
    let mut i: usize = 0;
    while i < n
        invariant
            n == a@.len(),
            n == b@.len(),
            i <= n,
            forall|j: int| 0 <= j < i ==> a@[j] == b@[j],
        decreases n - i,
    {
        if a.get_char(i) != b.get_char(i) {
            return false;
        }
        i = i + 1;
    }
    assert(a@ =~= b@);
    true
}

/// Whether `s` begins with `prefix`.
pub fn starts_with(s: &str, prefix: &str) -> (r: bool)
    ensures
        r == prefix@.is_prefix_of(s@),
{
    let n = s.unicode_len();
    let m = prefix.unicode_len();
    if m > n {
        return false;
    }
    let mut i: usize = 0;
    while i < m
        invariant
            n == s@.len(),
            m == prefix@.len(),
            m <= n,
            i <= m,
            forall|j: int| 0 <= j < i ==> prefix@[j] == s@[j],
        decreases m - i,
    {
        if s.get_char(i) != prefix.get_char(i) {
            return false;
        }
        i = i + 1;
    }
    assert(prefix@ =~= s@.subrange(0, m as int));
    true
}

/// Whether `s` ends with `suffix`.
pub fn ends_with(s: &str, suffix: &str) -> (r: bool)
    ensures
        r == (suffix@.len() <= s@.len() && s@.subrange(s@.len() - suffix@.len(), s@.len() as int) == suffix@),
{
    let n = s.unicode_len();
    let m = suffix.unicode_len();
    if m > n {
        return false;
    }
    let off = n - m;
    let mut i: usize = 0;
    while i < m
        invariant
            n == s@.len(),
            m == suffix@.len(),
            off == n - m,
            i <= m,
            forall|j: int| 0 <= j < i ==> suffix@[j] == s@[off + j],
        decreases m - i,
    {
        if s.get_char(off + i) != suffix.get_char(i) {
            return false;
        }
        i = i + 1;
    }
    assert(s@.subrange(off as int, n as int) =~= suffix@);
    true
}

/// The index of the last `c` in `s`.
pub open spec fn last_index_of(s: Seq<char>, c: char) -> Option<int>
    decreases s.len(),
{
    if s.len() == 0 {
        None
    } else if s.last() == c {
        Some(s.len() - 1)
    } else {
        last_index_of(s.drop_last(), c)
    }
}

proof fn lemma_last_index_of(s: Seq<char>, c: char, k: int)
    requires
        0 <= k <= s.len(),
        forall|j: int| k <= j < s.len() ==> s[j] != c,
    ensures
        last_index_of(s, c) == last_index_of(s.subrange(0, k), c),
    decreases s.len() - k,
{
    if k < s.len() {
        assert(s.drop_last() =~= s.subrange(0, s.len() - 1));
        lemma_last_index_of(s.drop_last(), c, k);
        assert(s.drop_last().subrange(0, k) =~= s.subrange(0, k));
    } else {
        assert(s.subrange(0, k) =~= s);
    }
}

/// Finds the last occurrence of `c`, counting in characters.
pub fn rfind_char(s: &str, c: char) -> (r: Option<usize>)
    ensures
        r matches Some(i) ==> last_index_of(s@, c) == Some(i as int) && i < s@.len(),
        r is None ==> last_index_of(s@, c) is None,
{
    let n = s.unicode_len();
    let mut k = n;
    while k > 0
        invariant
            n == s@.len(),
            k <= n,
            forall|j: int| k <= j < n ==> s@[j] != c,
        decreases k,
    {
        if s.get_char(k - 1) == c {
            proof {
                lemma_last_index_of(s@, c, k as int);
                assert(s@.subrange(0, k as int).last() == c);
            }
            return Some(k - 1);
        }
        k = k - 1;
    }
    proof {
        lemma_last_index_of(s@, c, 0);
        assert(s@.subrange(0, 0).len() == 0);
    }
    None
}

/// The character of a decimal digit.
pub open spec fn digit_char(d: nat) -> char {
    if d == 0 { '0' }
    else if d == 1 { '1' }
    else if d == 2 { '2' }
    else if d == 3 { '3' }
    else if d == 4 { '4' }
    else if d == 5 { '5' }
    else if d == 6 { '6' }
    else if d == 7 { '7' }
    else if d == 8 { '8' }
    else { '9' }
}

/// The decimal notation of a natural number, without leading zeros.
pub open spec fn decimal(n: nat) -> Seq<char>
    decreases n,
{
    if n < 10 {
        seq![digit_char(n)]
    } else {
        decimal(n / 10).push(digit_char(n % 10))
    }
}

/// The one-character string of a decimal digit.
fn digit_string(d: usize) -> (s: String)
    requires
        d < 10,
    ensures
        s@ == seq![digit_char(d as nat)],
{
    let lit = if d == 0 {
        proof { reveal_strlit("0"); }
        "0"
    } else if d == 1 {
        proof { reveal_strlit("1"); }
        "1"
    } else if d == 2 {
        proof { reveal_strlit("2"); }
        "2"
    } else if d == 3 {
        proof { reveal_strlit("3"); }
        "3"
    } else if d == 4 {
        proof { reveal_strlit("4"); }
        "4"
    } else if d == 5 {
        proof { reveal_strlit("5"); }
        "5"
    } else if d == 6 {
        proof { reveal_strlit("6"); }
        "6"
    } else if d == 7 {
        proof { reveal_strlit("7"); }
        "7"
    } else if d == 8 {
        proof { reveal_strlit("8"); }
        "8"
    } else {
        proof { reveal_strlit("9"); }
        "9"
    };
    let s = String::from_str(lit);
    assert(s@ =~= seq![digit_char(d as nat)]);
    s
}

/// The decimal notation of a number, as a string.
pub fn decimal_string(n: usize) -> (s: String)
    ensures
        s@ == decimal(n as nat),
    decreases n,
{
    if n < 10 {
        digit_string(n)
    } else {
        let high = decimal_string(n / 10);
        let low = digit_string(n % 10);
        let s = high.concat(low.as_str());
        assert(s@ =~= decimal((n / 10) as nat).push(digit_char((n % 10) as nat)));
        s
    }
}

/// Whether `c` occurs in `s`.
pub fn contains_char(s: &str, c: char) -> (r: bool)
    ensures
        r == s@.contains(c),
{
    let n = s.unicode_len();
    let mut i: usize = 0;
    while i < n
        invariant
            n == s@.len(),
            i <= n,
            forall|j: int| 0 <= j < i ==> s@[j] != c,
        decreases n - i,
    {
        if s.get_char(i) == c {
            assert(s@[i as int] == c);
            return true;
        }
        i = i + 1;
    }
    false
}

/// A decimal notation has a digit, and two or more from ten on.
pub proof fn lemma_decimal_len(n: nat)
    ensures
        decimal(n).len() >= 1,
        n >= 10 ==> decimal(n).len() >= 2,
    decreases n,
{
    if n >= 10 {
        lemma_decimal_len(n / 10);
    }
}

/// Different numbers have different decimal notations.
pub proof fn lemma_decimal_injective(a: nat, b: nat)
    requires
        decimal(a) == decimal(b),
    ensures
        a == b,
    decreases a,
{
    lemma_decimal_len(a);
    lemma_decimal_len(b);
    if a >= 10 && b >= 10 {
        assert(decimal(a).drop_last() =~= decimal(a / 10));
        assert(decimal(b).drop_last() =~= decimal(b / 10));
        lemma_decimal_injective(a / 10, b / 10);
        assert(decimal(a).last() == digit_char(a % 10));
        assert(decimal(b).last() == digit_char(b % 10));
    } else if a < 10 && b < 10 {
        assert(decimal(a)[0] == digit_char(a));
        assert(decimal(b)[0] == digit_char(b));
    }
}

/// `s` with each occurrence of `pat` replaced by `with`, found from left to right
/// without overlapping; an empty `pat` occurs before each character and at the end.
pub open spec fn replaced(s: Seq<char>, pat: Seq<char>, with: Seq<char>) -> Seq<char>
    decreases s.len(),
{
    if pat.len() == 0 {
        if s.len() == 0 {
            with
        } else {
            with + seq![s[0]] + replaced(s.skip(1), pat, with)
        }
    } else if s.len() == 0 {
        s
    } else if pat.is_prefix_of(s) {
        with + replaced(s.skip(pat.len() as int), pat, with)
    } else {
        seq![s[0]] + replaced(s.skip(1), pat, with)
    }
}

/// Replacing leaves out a character that neither the string nor the replacement holds.
pub proof fn lemma_replaced_keeps_out(s: Seq<char>, pat: Seq<char>, with: Seq<char>, c: char)
    requires
        !s.contains(c),
        !with.contains(c),
    ensures
        !replaced(s, pat, with).contains(c),
    decreases s.len(),
{
    if pat.len() == 0 {
        if s.len() > 0 {
            assert(!s.skip(1).contains(c)) by {
                if s.skip(1).contains(c) {
                    let k = choose|k: int| 0 <= k < s.skip(1).len() && s.skip(1)[k] == c;
                    assert(s[k + 1] == c);
                }
            }
            lemma_replaced_keeps_out(s.skip(1), pat, with, c);
            let r = replaced(s, pat, with);
            let tail = replaced(s.skip(1), pat, with);
            assert(r == with + seq![s[0]] + tail);
            assert(s[0] != c);
            assert(!r.contains(c)) by {
                if r.contains(c) {
                    let k = choose|k: int| 0 <= k < r.len() && r[k] == c;
                    if k < with.len() {
                        assert(with[k] == c);
                    } else if k > with.len() {
                        assert(tail[k - with.len() - 1] == c);
                    }
                }
            }
        }
    } else if s.len() > 0 {
        if pat.is_prefix_of(s) {
            let rest = s.skip(pat.len() as int);
            assert(!rest.contains(c)) by {
                if rest.contains(c) {
                    let k = choose|k: int| 0 <= k < rest.len() && rest[k] == c;
                    assert(s[k + pat.len()] == c);
                }
            }
            lemma_replaced_keeps_out(rest, pat, with, c);
            let r = replaced(s, pat, with);
            let tail = replaced(rest, pat, with);
            assert(!r.contains(c)) by {
                if r.contains(c) {
                    let k = choose|k: int| 0 <= k < r.len() && r[k] == c;
                    if k < with.len() {
                        assert(with[k] == c);
                    } else {
                        assert(tail[k - with.len()] == c);
                    }
                }
            }
        } else {
            assert(!s.skip(1).contains(c)) by {
                if s.skip(1).contains(c) {
                    let k = choose|k: int| 0 <= k < s.skip(1).len() && s.skip(1)[k] == c;
                    assert(s[k + 1] == c);
                }
            }
            lemma_replaced_keeps_out(s.skip(1), pat, with, c);
            let r = replaced(s, pat, with);
            let tail = replaced(s.skip(1), pat, with);
            assert(!r.contains(c)) by {
                if r.contains(c) {
                    let k = choose|k: int| 0 <= k < r.len() && r[k] == c;
                    if k == 0 {
                        assert(s[0] == c);
                    } else {
                        assert(tail[k - 1] == c);
                    }
                }
            }
        }
    }
}

/// Replacing a one-character pattern by text without that character removes it.
pub proof fn lemma_replaced_removes(s: Seq<char>, c: char, with: Seq<char>)
    requires
        !with.contains(c),
    ensures
        !replaced(s, seq![c], with).contains(c),
    decreases s.len(),
{
    if s.len() > 0 {
        let pat = seq![c];
        if pat.is_prefix_of(s) {
            let rest = s.skip(1);
            lemma_replaced_removes(rest, c, with);
            let r = replaced(s, pat, with);
            let tail = replaced(rest, pat, with);
            assert(!r.contains(c)) by {
                if r.contains(c) {
                    let k = choose|k: int| 0 <= k < r.len() && r[k] == c;
                    if k < with.len() {
                        assert(with[k] == c);
                    } else {
                        assert(tail[k - with.len()] == c);
                    }
                }
            }
        } else {
            assert(s[0] != c) by {
                if s[0] == c {
                    assert(pat =~= s.subrange(0, 1));
                }
            }
            lemma_replaced_removes(s.skip(1), c, with);
            let r = replaced(s, pat, with);
            let tail = replaced(s.skip(1), pat, with);
            assert(!r.contains(c)) by {
                if r.contains(c) {
                    let k = choose|k: int| 0 <= k < r.len() && r[k] == c;
                    if k == 0 {
                        assert(s[0] == c);
                    } else {
                        assert(tail[k - 1] == c);
                    }
                }
            }
        }
    }
}

/// Whether `pat` occurs in `s` at character index `i`.
fn occurs_at(s: &str, n: usize, pat: &str, m: usize, i: usize) -> (r: bool)
    requires
        n == s@.len(),
        m == pat@.len(),
        i <= n,
    ensures
        r == pat@.is_prefix_of(s@.skip(i as int)),
{
    if m > n - i {
        return false;
    }
    let mut j: usize = 0;
    while j < m
        invariant
            n == s@.len(),
            m == pat@.len(),
            i + m <= n,
            j <= m,
            forall|k: int| 0 <= k < j ==> pat@[k] == s@[i + k],
        decreases m - j,
    {
        if s.get_char(i + j) != pat.get_char(j) {
            assert(s@.skip(i as int)[j as int] == s@[i + j]);
            return false;
        }
        j = j + 1;
    }
    assert(pat@ =~= s@.skip(i as int).subrange(0, m as int));
    true
}

/// Replaces each occurrence of `pat` in `s` by `with`, left to right, as
/// `str::replace` does.
pub fn replace_all(s: &str, pat: &str, with: &str) -> (r: String)
    ensures
        r@ == replaced(s@, pat@, with@),
{
    let n = s.unicode_len();
    let m = pat.unicode_len();
    if m == 0 {
        let mut out = String::new();
        let mut i: usize = 0;
        assert(s@.skip(0) =~= s@);
        while i < n
            invariant
                n == s@.len(),
                pat@.len() == 0,
                i <= n,
                out@ + replaced(s@.skip(i as int), pat@, with@) == replaced(s@, pat@, with@),
            decreases n - i,
        {
            let ghost rest = s@.skip(i as int);
            out.append(with);
            out.append(s.substring_char(i, i + 1));
            proof {
                assert(rest.skip(1) =~= s@.skip(i + 1));
                assert(s@.subrange(i as int, i + 1) =~= seq![rest[0]]);
                assert(out@ + replaced(s@.skip(i + 1), pat@, with@) =~= replaced(s@, pat@, with@));
            }
            i = i + 1;
        }
        out.append(with);
        assert(s@.skip(n as int) =~= Seq::<char>::empty());
        assert(out@ =~= replaced(s@, pat@, with@));
        return out;
    }
    let mut out = String::new();
    let mut i: usize = 0;
    assert(s@.skip(0) =~= s@);
    while i < n
        invariant
            n == s@.len(),
            m == pat@.len(),
            m > 0,
            i <= n,
            out@ + replaced(s@.skip(i as int), pat@, with@) == replaced(s@, pat@, with@),
        decreases n - i,
    {
        let ghost rest = s@.skip(i as int);
        if occurs_at(s, n, pat, m, i) {
            out.append(with);
            proof {
                assert(rest.skip(m as int) =~= s@.skip(i + m));
                assert(out@ + replaced(s@.skip(i + m), pat@, with@) =~= replaced(s@, pat@, with@));
            }
            i = i + m;
        } else {
            out.append(s.substring_char(i, i + 1));
            proof {
                assert(rest.skip(1) =~= s@.skip(i + 1));
                assert(s@.subrange(i as int, i + 1) =~= seq![rest[0]]);
                assert(out@ + replaced(s@.skip(i + 1), pat@, with@) =~= replaced(s@, pat@, with@));
            }
            i = i + 1;
        }
    }
    assert(s@.skip(n as int) =~= Seq::<char>::empty());
    assert(out@ =~= replaced(s@, pat@, with@));
    out
}

/// Whether `char::is_uppercase` holds of `c`: the Unicode `Uppercase` property.
pub uninterp spec fn upper_case(c: char) -> bool;

/// Whether `char::is_alphanumeric` holds of `c`: the Unicode `Alphabetic` property,
/// or one of the number categories `Nd`, `Nl`, `No`.
pub uninterp spec fn alphanumeric(c: char) -> bool;

/// Calls `char::is_uppercase`. Trusted: the result is named `upper_case`, a function
/// of the character alone; the Unicode tables behind it are not stated.
#[verifier::external_body]
pub(crate) fn char_is_uppercase(c: char) -> (r: bool)
    ensures
        r == upper_case(c),
{
    c.is_uppercase()
}

/// Calls `char::is_alphanumeric`. Trusted: the result is named `alphanumeric`, a
/// function of the character alone; the Unicode tables behind it are not stated.
#[verifier::external_body]
pub(crate) fn char_is_alphanumeric(c: char) -> (r: bool)
    ensures
        r == alphanumeric(c),
{
    c.is_alphanumeric()
}

/// `a` comes before `b` in the order of their characters' code points, a prefix
/// first; on valid UTF-8 this is the byte order in which `String`s compare.
pub open spec fn lex_less(a: Seq<char>, b: Seq<char>) -> bool
    decreases a.len(),
{
    if a.len() == 0 {
        b.len() > 0
    } else if b.len() == 0 {
        false
    } else if (a[0] as int) < (b[0] as int) {
        true
    } else if (a[0] as int) > (b[0] as int) {
        false
    } else {
        lex_less(a.skip(1), b.skip(1))
    }
}

/// The order is strict, transitive, and total on different strings.
pub proof fn lemma_lex_order(a: Seq<char>, b: Seq<char>, c: Seq<char>)
    ensures
        !lex_less(a, a),
        lex_less(a, b) && lex_less(b, c) ==> lex_less(a, c),
        a != b ==> lex_less(a, b) || lex_less(b, a),
        lex_less(a, b) ==> !lex_less(b, a),
    decreases a.len(),
{
    if a.len() > 0 {
        lemma_lex_order(a.skip(1), a.skip(1), a.skip(1));
        if b.len() > 0 {
            if c.len() > 0 {
                lemma_lex_order(a.skip(1), b.skip(1), c.skip(1));
            } else {
                lemma_lex_order(a.skip(1), b.skip(1), b.skip(1));
            }
            if a != b && (a[0] as int) == (b[0] as int) {
                assert(a[0] == b[0]);
                if a.skip(1) == b.skip(1) {
                    assert(a =~= seq![a[0]] + a.skip(1));
                    assert(b =~= seq![b[0]] + b.skip(1));
                }
            }
        }
    } else if b.len() == 0 {
        assert(a =~= b);
    }
}

/// Whether `a` comes before `b` in code point order.
pub fn str_less(a: &str, b: &str) -> (r: bool)
    ensures
        r == lex_less(a@, b@),
{
    let n = a.unicode_len();
    let m = b.unicode_len();
    let mut i: usize = 0;
    assert(a@.skip(0) =~= a@);
    assert(b@.skip(0) =~= b@);
    while i < n && i < m
        invariant
            n == a@.len(),
            m == b@.len(),
            i <= n,
            i <= m,
            lex_less(a@, b@) == lex_less(a@.skip(i as int), b@.skip(i as int)),
        decreases n - i,
    {
        let x = a.get_char(i);
        let y = b.get_char(i);
        assert(a@.skip(i as int)[0] == x);
        assert(b@.skip(i as int)[0] == y);
        if (x as u32) < (y as u32) {
            return true;
        }
        if (x as u32) > (y as u32) {
            return false;
        }
        assert(a@.skip(i as int).skip(1) =~= a@.skip(i + 1));
        assert(b@.skip(i as int).skip(1) =~= b@.skip(i + 1));
        i = i + 1;
    }
    n - i == 0 && m - i > 0
}

/// Some string of `s` holds the characters `x`.
pub open spec fn holds_text(s: Seq<String>, x: Seq<char>) -> bool {
    exists|i: int| 0 <= i < s.len() && #[trigger] s[i]@ == x
}

/// Whether some string of `names` holds the characters of `name`.
pub fn contains_text(names: &Vec<String>, name: &str) -> (r: bool)
    ensures
        r == holds_text(names@, name@),
{
    let mut i: usize = 0;
    while i < names.len()
        invariant
            i <= names@.len(),
            forall|j: int| 0 <= j < i ==> names@[j]@ != name@,
        decreases names@.len() - i,
    {
        if str_equals(names[i].as_str(), name) {
            assert(names@[i as int]@ == name@);
            return true;
        }
        i = i + 1;
    }
    false
}

/// The names of `v`, in code point order; `v` holds no name twice.
pub fn sort_names(v: Vec<String>) -> (r: Vec<String>)
    requires
        forall|i: int, j: int| 0 <= i < j < v@.len() ==> v@[i]@ != v@[j]@,
    ensures
        r@.len() == v@.len(),
        forall|i: int, j: int| 0 <= i < j < r@.len() ==> lex_less(r@[i]@, r@[j]@),
        forall|x: Seq<char>| #![trigger holds_text(r@, x)] #![trigger holds_text(v@, x)]
            holds_text(r@, x) <==> holds_text(v@, x),
{
    let ghost src = v@;
    let mut rest = v;
    let mut out: Vec<String> = Vec::new();
    let ghost mut taken: nat = 0;
    while rest.len() > 0
        invariant
            taken <= src.len(),
            rest@ == src.subrange(taken as int, src.len() as int),
            out@.len() == taken,
            forall|i: int, j: int| 0 <= i < j < src.len() ==> src[i]@ != src[j]@,
            forall|i: int, j: int| 0 <= i < j < out@.len() ==> lex_less(out@[i]@, out@[j]@),
            forall|x: Seq<char>| #![trigger holds_text(out@, x)] #![trigger holds_text(src.subrange(0, taken as int), x)]
                holds_text(out@, x) <==> holds_text(src.subrange(0, taken as int), x),
        decreases rest@.len(),
    {
        let x = rest.remove(0);
        proof {
            assert(x == src[taken as int]);
        }
        let mut p: usize = 0;
        while p < out.len() && str_less(out[p].as_str(), x.as_str())
            invariant
                p <= out@.len(),
                forall|k: int| 0 <= k < p ==> lex_less(out@[k]@, x@),
            decreases out@.len() - p,
        {
            p = p + 1;
        }
        let ghost before = out@;
        proof {
            assert forall|k: int| p <= k < before.len() implies lex_less(x@, #[trigger] before[k]@) by {
                lemma_lex_order(before[p as int]@, x@, x@);
                if before[p as int]@ == x@ {
                    assert(holds_text(before, x@));
                    let w = choose|i: int| 0 <= i < taken && #[trigger] src.subrange(0, taken as int)[i]@ == x@;
                    assert(src[w]@ == src[taken as int]@);
                }
                lemma_lex_order(x@, before[p as int]@, before[k]@);
                if k > p {
                    assert(lex_less(before[p as int]@, before[k]@));
                }
            }
        }
        out.insert(p, x);
        proof {
            assert(out@ =~= before.subrange(0, p as int).push(x).add(before.subrange(p as int, before.len() as int)));
            assert forall|i: int, j: int| 0 <= i < j < out@.len() implies lex_less(out@[i]@, out@[j]@) by {
                if i < p && j > p {
                    lemma_lex_order(before[i]@, x@, before[j - 1]@);
                }
            }
            let ghost pre = src.subrange(0, taken as int);
            let ghost post = src.subrange(0, taken as int + 1);
            assert(post =~= pre.push(x));
            assert forall|y: Seq<char>| holds_text(out@, y) implies holds_text(post, y) by {
                let i = choose|i: int| 0 <= i < out@.len() && #[trigger] out@[i]@ == y;
                if i < p {
                    assert(before[i]@ == y);
                    assert(holds_text(before, y));
                    let k = choose|k: int| 0 <= k < pre.len() && #[trigger] pre[k]@ == y;
                    assert(post[k]@ == y);
                } else if i > p {
                    assert(before[i - 1]@ == y);
                    assert(holds_text(before, y));
                    let k = choose|k: int| 0 <= k < pre.len() && #[trigger] pre[k]@ == y;
                    assert(post[k]@ == y);
                } else {
                    assert(post[taken as int]@ == y);
                }
            }
            assert forall|y: Seq<char>| holds_text(post, y) implies holds_text(out@, y) by {
                let i = choose|i: int| 0 <= i < post.len() && #[trigger] post[i]@ == y;
                if i == taken {
                    assert(out@[p as int]@ == y);
                } else {
                    assert(pre[i]@ == y);
                    assert(holds_text(pre, y));
                    let k = choose|k: int| 0 <= k < before.len() && #[trigger] before[k]@ == y;
                    if k < p {
                        assert(out@[k]@ == y);
                    } else {
                        assert(out@[k + 1]@ == y);
                    }
                }
            }
            taken = taken + 1;
            assert(rest@ =~= src.subrange(taken as int, src.len() as int));
        }
    }
    out
}

/// A string holding the characters of a literal.
pub fn owned(s: &str) -> (r: String)
    ensures
        r@ == s@,
{
    String::from_str(s)
}

} // verus!
