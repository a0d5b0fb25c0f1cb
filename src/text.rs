//! Text helpers over the character and byte views of strings.
use vstd::prelude::*;
use vstd::utf8::encode_utf8;

verus! {

/// Byte-wise lexicographic order: `a` sorts strictly before `b`.
pub open spec fn bytes_lt(a: Seq<u8>, b: Seq<u8>) -> bool {
    exists|i: int| #[trigger] first_split(a, b, i)
}

/// `i` is where `a` and `b` first part ways, in a way that puts `a` first.
pub open spec fn first_split(a: Seq<u8>, b: Seq<u8>, i: int) -> bool {
    &&& 0 <= i <= a.len()
    &&& i < b.len()
    &&& a.subrange(0, i) == b.subrange(0, i)
    &&& (i == a.len() || a[i] < b[i])
}

/// The order of `String`s: byte-wise on their UTF-8 encodings.
pub open spec fn text_lt(a: Seq<char>, b: Seq<char>) -> bool {
    bytes_lt(encode_utf8(a), encode_utf8(b))
}

pub proof fn lemma_bytes_lt_transitive(a: Seq<u8>, b: Seq<u8>, c: Seq<u8>)
    requires
        bytes_lt(a, b),
        bytes_lt(b, c),
    ensures
        bytes_lt(a, c),
{
    let i = choose|i: int| first_split(a, b, i);
    let j = choose|j: int| first_split(b, c, j);
    let k = if i < j { i } else { j };
    assert(a.subrange(0, k) == a.subrange(0, i).subrange(0, k));
    assert(b.subrange(0, k) == b.subrange(0, i).subrange(0, k));
    assert(b.subrange(0, k) == b.subrange(0, j).subrange(0, k));
    assert(c.subrange(0, k) == c.subrange(0, j).subrange(0, k));
    if i < j {
        assert(b.subrange(0, j)[i] == c.subrange(0, j)[i]);
    } else if j < i {
        assert(a.subrange(0, i)[j] == b.subrange(0, i)[j]);
    }
    assert(first_split(a, c, k));
}

pub proof fn lemma_bytes_lt_asymmetric(a: Seq<u8>, b: Seq<u8>)
    requires
        bytes_lt(a, b),
    ensures
        !bytes_lt(b, a),
{
    if bytes_lt(b, a) {
        lemma_bytes_lt_transitive(a, b, a);
    }
}

pub proof fn lemma_text_lt_transitive(a: Seq<char>, b: Seq<char>, c: Seq<char>)
    requires
        text_lt(a, b),
        text_lt(b, c),
    ensures
        text_lt(a, c),
{
    lemma_bytes_lt_transitive(encode_utf8(a), encode_utf8(b), encode_utf8(c));
}

pub proof fn lemma_text_lt_irreflexive(a: Seq<char>)
    ensures
        !text_lt(a, a),
{
}

pub proof fn lemma_encode_injective(a: Seq<char>, b: Seq<char>)
    requires
        encode_utf8(a) == encode_utf8(b),
    ensures
        a == b,
{
    vstd::utf8::encode_utf8_decode_utf8(a);
    vstd::utf8::encode_utf8_decode_utf8(b);
}

/// Three-way comparison in the order of `text_lt`.
pub fn compare_text(a: &str, b: &str) -> (r: i8)
    ensures
        (r < 0) == text_lt(a@, b@),
        (r == 0) == (a@ == b@),
        (r > 0) == text_lt(b@, a@),
{
    let x = a.as_bytes();
    let y = b.as_bytes();
    let ghost xs = encode_utf8(a@);
    let ghost ys = encode_utf8(b@);
    assert(x@ == xs);
    assert(y@ == ys);
    let mut i: usize = 0;
    while i < x.len() && i < y.len() && x[i] == y[i]
        invariant
            x@ == xs,
            y@ == ys,
            0 <= i <= xs.len(),
            i <= ys.len(),
            xs.subrange(0, i as int) == ys.subrange(0, i as int),
        decreases xs.len() - i,
    {
        assert(xs.subrange(0, i + 1) == xs.subrange(0, i as int).push(xs[i as int]));
        assert(ys.subrange(0, i + 1) == ys.subrange(0, i as int).push(ys[i as int]));
        i = i + 1;
    }
    proof {
        let ii = i as int;
        assert forall|k: int| 0 <= k < ii implies xs[k] == ys[k] by {
            assert(xs.subrange(0, ii)[k] == ys.subrange(0, ii)[k]);
        }
        // no split point other than `i` can witness either order
        assert forall|k: int| first_split(xs, ys, k) implies k == ii by {
            if k < ii {
            } else if k > ii {
                assert(xs.subrange(0, k)[ii] == ys.subrange(0, k)[ii]);
            }
        }
        assert forall|k: int| first_split(ys, xs, k) implies k == ii by {
            if k < ii {
            } else if k > ii {
                assert(xs.subrange(0, k)[ii] == ys.subrange(0, k)[ii]);
            }
        }
    }
    if i == x.len() && i == y.len() {
        proof {
            assert(xs == xs.subrange(0, i as int));
            assert(ys == ys.subrange(0, i as int));
            lemma_encode_injective(a@, b@);
        }
        0
    } else if i == x.len() || (i < y.len() && x[i] < y[i]) {
        proof {
            assert(first_split(xs, ys, i as int));
        }
        -1
    } else {
        proof {
            assert(ys.subrange(0, i as int) == xs.subrange(0, i as int));
            assert(first_split(ys, xs, i as int));
            if a@ == b@ {
            }
        }
        1
    }
}


/// The character views of a sequence of strings.
pub open spec fn views(v: Seq<String>) -> Seq<Seq<char>> {
    v.map_values(|s: String| s@)
}

/// Every element sorts strictly before every later one.
pub open spec fn strictly_ascending(s: Seq<Seq<char>>) -> bool {
    forall|i: int, j: int| 0 <= i < j < s.len() ==> text_lt(#[trigger] s[i], #[trigger] s[j])
}

/// Inserts `x` into an ascending, duplicate-free vector unless it is already there.
pub fn insert_sorted_unique(v: &mut Vec<String>, x: String)
    requires
        strictly_ascending(views(old(v)@)),
    ensures
        strictly_ascending(views(final(v)@)),
        forall|t: Seq<char>|
            views(final(v)@).contains(t) <==> (views(old(v)@).contains(t) || t == x@),
{
    let ghost old_views = views(v@);
    let mut k: usize = 0;
    let mut done = false;
    while !done && k < v.len()
        invariant
            views(v@) == old_views,
            strictly_ascending(old_views),
            0 <= k <= v.len(),
            done ==> k < v.len() && !text_lt(old_views[k as int], x@),
            forall|i: int| 0 <= i < k ==> text_lt(#[trigger] old_views[i], x@),
        decreases v.len() - k + (if done { 0int } else { 1int }),
    {
        if compare_text(v[k].as_str(), x.as_str()) >= 0 {
            done = true;
        } else {
            k = k + 1;
        }
    }
    if k < v.len() {
        let cmp = compare_text(v[k].as_str(), x.as_str());
        if cmp == 0 {
            proof {
                assert(old_views[k as int] == x@);
            }
            return;
        }
        proof {
            if cmp < 0 {
                lemma_bytes_lt_asymmetric(encode_utf8(old_views[k as int]), encode_utf8(x@));
            }
            assert(text_lt(x@, old_views[k as int]));
        }
    }
    v.insert(k, x);
    proof {
        let nv = views(v@);
        assert(nv == old_views.insert(k as int, x@));
        assert forall|i: int, j: int| 0 <= i < j < nv.len() implies text_lt(
            #[trigger] nv[i],
            #[trigger] nv[j],
        ) by {
            if j > k + 1 {
                lemma_text_lt_transitive(x@, old_views[k as int], old_views[j - 1]);
            }
            if i < k && j > k {
                assert(text_lt(old_views[i], x@));
                lemma_text_lt_transitive(old_views[i], x@, nv[j]);
            }
        }
        assert forall|t: Seq<char>| nv.contains(t) <==> (old_views.contains(t) || t == x@) by {
            if nv.contains(t) {
                let i = choose|i: int| 0 <= i < nv.len() && nv[i] == t;
                if i < k {
                    assert(old_views[i] == t);
                } else if i > k {
                    assert(old_views[i - 1] == t);
                }
            }
            if old_views.contains(t) {
                let i = choose|i: int| 0 <= i < old_views.len() && old_views[i] == t;
                if i < k {
                    assert(nv[i] == t);
                } else {
                    assert(nv[i + 1] == t);
                }
            }
            if t == x@ {
                assert(nv[k as int] == t);
            }
        }
    }
}

/// ASCII lower-case folding of one character, as a code point.
pub open spec fn folded_code(c: char) -> u32 {
    if 65 <= (c as u32) <= 90 {
        ((c as u32) + 32) as u32
    } else {
        c as u32
    }
}

/// A string with its ASCII letters folded to lower case, as code points.
pub open spec fn folded(s: Seq<char>) -> Seq<u32> {
    s.map_values(|c: char| folded_code(c))
}

/// `needle` occurs in `hay` as a contiguous run.
pub open spec fn occurs_in(needle: Seq<u32>, hay: Seq<u32>) -> bool {
    exists|i: int| 0 <= i <= hay.len() - needle.len() && #[trigger] hay.subrange(i, i + needle.len()) == needle
}

fn fold_char(c: char) -> (r: u32)
    ensures
        r == folded_code(c),
{
    let u = c as u32;
    if 65 <= u && u <= 90 {
        u + 32
    } else {
        u
    }
}

/// The folded code points of a string, one per character.
pub fn fold_text(s: &str) -> (r: Vec<u32>)
    ensures
        r@ == folded(s@),
{
    let n = s.unicode_len();
    let mut r: Vec<u32> = Vec::new();
    let mut i: usize = 0;
    while i < n
        invariant
            n == s@.len(),
            0 <= i <= n,
            r@ == folded(s@.subrange(0, i as int)),
        decreases n - i,
    {
        let c = s.get_char(i);
        r.push(fold_char(c));
        proof {
            assert(s@.subrange(0, i + 1) == s@.subrange(0, i as int).push(c));
        }
        i = i + 1;
    }
    proof {
        assert(s@.subrange(0, n as int) == s@);
    }
    r
}

/// Whether two strings match when ASCII case is ignored.
pub fn eq_ignore_ascii_case(a: &str, b: &str) -> (r: bool)
    ensures
        r == (folded(a@) == folded(b@)),
{
    let x = fold_text(a);
    let y = fold_text(b);
    if x.len() != y.len() {
        return false;
    }
    let mut i: usize = 0;
    while i < x.len()
        invariant
            x@ == folded(a@),
            y@ == folded(b@),
            x.len() == y.len(),
            0 <= i <= x.len(),
            forall|k: int| 0 <= k < i ==> x@[k] == y@[k],
        decreases x.len() - i,
    {
        if x[i] != y[i] {
            proof {
                assert(x@[i as int] != y@[i as int]);
            }
            return false;
        }
        i = i + 1;
    }
    proof {
        assert(x@ == y@);
    }
    true
}

fn occurs_at(needle: &Vec<u32>, hay: &Vec<u32>, at: usize) -> (r: bool)
    requires
        at + needle.len() <= hay.len(),
    ensures
        r == (hay@.subrange(at as int, at + needle.len()) == needle@),
{
    let mut k: usize = 0;
    while k < needle.len()
        invariant
            at + needle.len() <= hay.len(),
            0 <= k <= needle.len(),
            forall|j: int| 0 <= j < k ==> hay@[at + j] == needle@[j],
        decreases needle.len() - k,
    {
        if hay[at + k] != needle[k] {
            proof {
                assert(hay@.subrange(at as int, at + needle.len())[k as int] != needle@[k as int]);
            }
            return false;
        }
        k = k + 1;
    }
    proof {
        assert(hay@.subrange(at as int, at + needle.len()) == needle@);
    }
    true
}

/// Whether `needle` occurs in `hay` when ASCII case is ignored.
pub fn contains_ignore_ascii_case(hay: &str, needle: &str) -> (r: bool)
    ensures
        r == occurs_in(folded(needle@), folded(hay@)),
{
    let h = fold_text(hay);
    let n = fold_text(needle);
    if n.len() > h.len() {
        return false;
    }
    let last = h.len() - n.len();
    let mut at: usize = 0;
    while at <= last
        invariant
            h@ == folded(hay@),
            n@ == folded(needle@),
            n.len() <= h.len(),
            last == h.len() - n.len(),
            0 <= at,
            forall|i: int| 0 <= i < at ==> #[trigger] h@.subrange(i, i + n.len()) != n@,
        decreases last + 1 - at,
    {
        if occurs_at(&n, &h, at) {
            proof {
                assert(h@.subrange(at as int, at + n.len()) == n@);
            }
            return true;
        }
        if at == last {
            proof {
                assert forall|i: int| 0 <= i <= h@.len() - n@.len() implies #[trigger] h@.subrange(i, i + n@.len()) != n@ by {
                    assert(i <= at);
                }
            }
            return false;
        }
        at = at + 1;
    }
    false
}

/// A character with the Unicode `White_Space` property.
pub open spec fn is_white_space(c: char) -> bool {
    let u = c as u32;
    ||| 0x09 <= u <= 0x0d
    ||| u == 0x20
    ||| u == 0x85
    ||| u == 0xa0
    ||| u == 0x1680
    ||| 0x2000 <= u <= 0x200a
    ||| u == 0x2028
    ||| u == 0x2029
    ||| u == 0x202f
    ||| u == 0x205f
    ||| u == 0x3000
}

/// How many white-space characters open `s`.
pub open spec fn leading_white(s: Seq<char>) -> nat
    decreases s.len(),
{
    if s.len() > 0 && is_white_space(s[0]) {
        1 + leading_white(s.drop_first())
    } else {
        0
    }
}

/// How many white-space characters close `s`.
pub open spec fn trailing_white(s: Seq<char>) -> nat
    decreases s.len(),
{
    if s.len() > 0 && is_white_space(s.last()) {
        1 + trailing_white(s.drop_last())
    } else {
        0
    }
}

/// `s` without the white space that opens and closes it.
pub open spec fn trimmed_of(s: Seq<char>) -> Seq<char> {
    let rest = s.subrange(leading_white(s) as int, s.len() as int);
    rest.subrange(0, rest.len() - trailing_white(rest))
}

/// Whether `c` has the Unicode `White_Space` property.
pub fn white_space(c: char) -> (r: bool)
    ensures
        r == is_white_space(c),
{
    let u = c as u32;
    (0x09 <= u && u <= 0x0d) || u == 0x20 || u == 0x85 || u == 0xa0 || u == 0x1680 || (0x2000
        <= u && u <= 0x200a) || u == 0x2028 || u == 0x2029 || u == 0x202f || u == 0x205f || u
        == 0x3000
}

/// `s` without the white space that opens and closes it.
pub fn trim_text(s: &str) -> (r: &str)
    ensures
        r@ == trimmed_of(s@),
{
    let n = s.unicode_len();
    let ghost t = s@;
    let mut a: usize = 0;
    proof {
        assert(t.subrange(0, n as int) == t);
    }
    while a < n && white_space(s.get_char(a))
        invariant
            n == t.len(),
            t == s@,
            0 <= a <= n,
            leading_white(t) == a + leading_white(t.subrange(a as int, n as int)),
        decreases n - a,
    {
        proof {
            let rest = t.subrange(a as int, n as int);
            assert(rest[0] == t[a as int]);
            assert(rest.drop_first() == t.subrange(a + 1, n as int));
        }
        a = a + 1;
    }
    proof {
        let rest = t.subrange(a as int, n as int);
        if a < n {
            assert(rest[0] == t[a as int]);
        }
        assert(leading_white(rest) == 0);
    }
    let ghost rest = t.subrange(a as int, n as int);
    let mut b: usize = n;
    proof {
        assert(rest.subrange(0, (n - a) as int) == rest);
    }
    while b > a && white_space(s.get_char(b - 1))
        invariant
            n == t.len(),
            t == s@,
            0 <= a <= b <= n,
            rest == t.subrange(a as int, n as int),
            trailing_white(rest) == (n - b) + trailing_white(rest.subrange(0, b - a)),
        decreases b,
    {
        proof {
            let part = rest.subrange(0, b - a);
            assert(part.last() == t[b - 1]);
            assert(part.drop_last() == rest.subrange(0, b - 1 - a));
        }
        b = b - 1;
    }
    proof {
        let part = rest.subrange(0, b - a);
        if b > a {
            assert(part.last() == t[b - 1]);
        }
        assert(trailing_white(part) == 0);
        assert(rest.subrange(0, rest.len() - trailing_white(rest)) =~= t.subrange(a as int, b as int));
    }
    s.substring_char(a, b)
}

/// Whether `name` is among `names`.
pub fn contains_name(names: &Vec<String>, name: &str) -> (r: bool)
    ensures
        r == views(names@).contains(name@),
{
    let mut i: usize = 0;
    while i < names.len()
        invariant
            0 <= i <= names@.len(),
            forall|j: int| 0 <= j < i ==> #[trigger] names@[j]@ != name@,
        decreases names@.len() - i,
    {
        if compare_text(names[i].as_str(), name) == 0 {
            proof {
                assert(views(names@)[i as int] == name@);
            }
            return true;
        }
        i = i + 1;
    }
    proof {
        if views(names@).contains(name@) {
            let j = choose|j: int| 0 <= j < names@.len() && views(names@)[j] == name@;
            assert(names@[j]@ == name@);
        }
    }
    false
}

} // verus!
