use vstd::prelude::*;
use vstd::string::*;

verus! {

/// The character sequences of a list of strings.
pub open spec fn strs(v: Seq<String>) -> Seq<Seq<char>> {
    v.map_values(|s: String| s@)
}

/// Whether `s` equals one of the strings in `v`.
pub fn contains_str(v: &Vec<String>, s: &String) -> (r: bool)
    ensures
        r == strs(v@).contains(s@),
{
    let mut i: usize = 0;
    while i < v.len()
        invariant
            i <= v@.len(),
            forall|j: int| 0 <= j < i ==> v@[j]@ != s@,
        decreases v@.len() - i,
    {
        if v[i] == *s {
            assert(strs(v@)[i as int] == s@);
            return true;
        }
        i = i + 1;
    }
    assert(!strs(v@).contains(s@)) by {
        if strs(v@).contains(s@) {
            let k = choose|k: int| 0 <= k < strs(v@).len() && strs(v@)[k] == s@;
            assert(v@[k]@ == s@);
        }
    }
    false
}

/// `a` and `b` joined by `sep`, where an empty side leaves the other alone.
pub open spec fn join_spec(a: Seq<char>, b: Seq<char>, sep: Seq<char>) -> Seq<char> {
    if a.len() == 0 {
        b
    } else if b.len() == 0 {
        a
    } else {
        a + sep + b
    }
}

/// Joins two strings with a separator, skipping the separator when either is empty.
pub fn joiner(a: &str, b: &str, sep: &str) -> (r: String)
    ensures
        r@ == join_spec(a@, b@, sep@),
{
    if a.unicode_len() == 0 {
        b.to_owned()
    } else if b.unicode_len() == 0 {
        a.to_owned()
    } else {
        let mut r = a.to_owned();
        r.append(sep);
        r.append(b);
        r
    }
}

/// `s` cut at each occurrence of `sep`, scanning from the left; occurrences do not
/// overlap, and an empty piece stands wherever two cuts touch or at either end.
pub open spec fn split_on(s: Seq<char>, sep: Seq<char>) -> Seq<Seq<char>>
    decreases s.len(),
{
    if sep.len() == 0 {
        seq![s]
    } else if s.len() >= sep.len() && s.subrange(0, sep.len() as int) == sep {
        seq![Seq::<char>::empty()] + split_on(s.subrange(sep.len() as int, s.len() as int), sep)
    } else if s.len() == 0 {
        seq![s]
    } else {
        let r = split_on(s.drop_first(), sep);
        r.update(0, seq![s[0]] + r[0])
    }
}

/// Splitting yields at least one piece.
pub proof fn lemma_split_nonempty(s: Seq<char>, sep: Seq<char>)
    ensures
        split_on(s, sep).len() >= 1,
    decreases s.len(),
{
    if sep.len() == 0 {
    } else if s.len() >= sep.len() && s.subrange(0, sep.len() as int) == sep {
        lemma_split_nonempty(s.subrange(sep.len() as int, s.len() as int), sep);
    } else if s.len() == 0 {
    } else {
        lemma_split_nonempty(s.drop_first(), sep);
    }
}

/// The characters of a string, one by one.
pub fn chars_of(s: &str) -> (r: Vec<char>)
    ensures
        r@ == s@,
{
    let n = s.unicode_len();
    let mut r: Vec<char> = Vec::new();
    let mut i: usize = 0;
    while i < n
        invariant
            n == s@.len(),
            i <= n,
            r@ == s@.subrange(0, i as int),
        decreases n - i,
    {
        r.push(s.get_char(i));
        i = i + 1;
        assert(r@ =~= s@.subrange(0, i as int));
    }
    assert(r@ =~= s@);
    r
}

/// Whether `sep` occurs in `s` starting at position `i`.
fn occurs_at(s: &Vec<char>, i: usize, sep: &Vec<char>) -> (r: bool)
    requires
        i <= s@.len(),
    ensures
        r == (s@.len() - i >= sep@.len() && s@.subrange(i as int, i + sep@.len()) == sep@),
{
    if s.len() - i < sep.len() {
        return false;
    }
    let mut j: usize = 0;
    while j < sep.len()
        invariant
            i + sep.len() <= s.len(),
            j <= sep@.len(),
            forall|k: int| 0 <= k < j ==> s@[i + k] == sep@[k],
        decreases sep@.len() - j,
    {
        if s[i + j] != sep[j] {
            assert(s@.subrange(i as int, i + sep@.len())[j as int] != sep@[j as int]);
            return false;
        }
        j = j + 1;
    }
    assert(s@.subrange(i as int, i + sep@.len()) =~= sep@);
    true
}

/// Splits `s` at each occurrence of `sep`, as `str::split` does with a string pattern.
pub fn split_str(s: &str, sep: &str) -> (r: Vec<String>)
    requires
        sep@.len() > 0,
    ensures
        strs(r@) == split_on(s@, sep@),
{
    let cs = chars_of(s);
    let ps = chars_of(sep);
    let n = cs.len();
    let k = ps.len();
    let ghost whole = split_on(s@, sep@);
    let mut acc: Vec<String> = Vec::new();
    let mut start: usize = 0;
    let mut i: usize = 0;
    proof {
        lemma_split_nonempty(s@, sep@);
        assert(s@.subrange(0, n as int) =~= s@);
        assert(whole =~= strs(acc@).push(s@.subrange(0, 0) + whole[0]) + whole.drop_first());
    }
    while i < n
        invariant
            cs@ == s@,
            ps@ == sep@,
            n == s@.len(),
            k == sep@.len(),
            k > 0,
            start <= i <= n,
            whole == split_on(s@, sep@),
            whole == strs(acc@).push(
                s@.subrange(start as int, i as int) + split_on(s@.subrange(i as int, n as int), sep@)[0],
            ) + split_on(s@.subrange(i as int, n as int), sep@).drop_first(),
        decreases n - i,
    {
        let ghost t = s@.subrange(i as int, n as int);
        let ghost cur = s@.subrange(start as int, i as int);
        if occurs_at(&cs, i, &ps) {
            let piece = s.substring_char(start, i).to_owned();
            let ghost t2 = s@.subrange(i + k, n as int);
            proof {
                assert(t.subrange(0, k as int) =~= s@.subrange(i as int, i + k));
                assert(t.subrange(k as int, t.len() as int) =~= t2);
                lemma_split_nonempty(t2, sep@);
                let rest = split_on(t2, sep@);
                assert(split_on(t, sep@) == seq![Seq::<char>::empty()] + rest);
                assert(strs(acc@.push(piece)) =~= strs(acc@).push(cur));
                assert(s@.subrange(i + k, i + k) + rest[0] =~= rest[0]);
                assert(whole =~= strs(acc@.push(piece)).push(
                    s@.subrange(i + k, i + k) + rest[0],
                ) + rest.drop_first());
            }
            acc.push(piece);
            i = i + k;
            start = i;
        } else {
            let ghost t1 = s@.subrange(i + 1, n as int);
            proof {
                assert(t.drop_first() =~= t1);
                if t.len() >= k {
                    assert(t.subrange(0, k as int) =~= s@.subrange(i as int, i + k));
                }
                lemma_split_nonempty(t1, sep@);
                let r = split_on(t1, sep@);
                assert(split_on(t, sep@) == r.update(0, seq![t[0]] + r[0]));
                assert(s@.subrange(start as int, i + 1) + r[0] =~= cur + (seq![t[0]] + r[0]));
                assert(r.update(0, seq![t[0]] + r[0]).drop_first() =~= r.drop_first());
            }
            i = i + 1;
        }
    }
    let piece = s.substring_char(start, n).to_owned();
    proof {
        let t = s@.subrange(n as int, n as int);
        assert(t =~= Seq::<char>::empty());
        assert(split_on(t, sep@) == seq![t]);
        assert(strs(acc@.push(piece)) =~= strs(acc@).push(s@.subrange(start as int, n as int)));
        assert(whole =~= strs(acc@.push(piece)));
    }
    acc.push(piece);
    acc
}

/// The pieces joined in order with `sep` between neighbours.
pub open spec fn join_all(segs: Seq<Seq<char>>, sep: Seq<char>) -> Seq<char>
    decreases segs.len(),
{
    if segs.len() == 0 {
        Seq::<char>::empty()
    } else if segs.len() == 1 {
        segs[0]
    } else {
        join_all(segs.drop_last(), sep) + sep + segs.last()
    }
}

/// Joins strings with a separator, as `[..].join(sep)` does.
pub fn join_strs(v: &Vec<String>, sep: &str) -> (r: String)
    ensures
        r@ == join_all(strs(v@), sep@),
{
    let mut r = String::new();
    let mut i: usize = 0;
    while i < v.len()
        invariant
            i <= v@.len(),
            r@ == join_all(strs(v@).subrange(0, i as int), sep@),
        decreases v@.len() - i,
    {
        let ghost pre = strs(v@).subrange(0, i as int);
        let ghost next = strs(v@).subrange(0, i + 1);
        if i > 0 {
            r.append(sep);
        }
        r.append(v[i].as_str());
        proof {
            assert(next.drop_last() =~= pre);
            if i == 0 {
                assert(r@ =~= next[0]);
            }
        }
        i = i + 1;
    }
    assert(strs(v@).subrange(0, v@.len() as int) =~= strs(v@));
    r
}

/// Module path, namespace and short name of an identifier such as
/// `some/path/with::complex::Types`: the last `::` piece is the short name; the
/// pieces before it, with the `/` path of the first one taken off, are the namespace;
/// that `/` path is the module path.
pub open spec fn parts_of(path: Seq<char>) -> (Seq<char>, Seq<char>, Seq<char>) {
    let colon2 = split_on(path, "::"@);
    let last = colon2.last();
    let rest = colon2.drop_last();
    if rest.len() == 0 {
        (Seq::<char>::empty(), Seq::<char>::empty(), last)
    } else {
        let slash = split_on(rest[0], "/"@);
        (
            join_all(slash.drop_last(), "/"@),
            join_all(seq![slash.last()] + rest.drop_first(), "::"@),
            last,
        )
    }
}

/// `block/header::Header` gives (`block`, `header`, `Header`);
/// `some/path/with::complex::Types` gives (`some/path`, `with::complex`, `Types`).
pub fn path_parts(path: &str) -> (r: (String, String, String))
    ensures
        (r.0@, r.1@, r.2@) == parts_of(path@),
{
    proof {
        reveal_strlit("::");
        reveal_strlit("/");
    }
    let mut colon2 = split_str(path, "::");
    proof {
        lemma_split_nonempty(path@, "::"@);
    }
    let ghost c0 = strs(colon2@);
    let last = colon2.pop().unwrap();
    assert(strs(colon2@) =~= c0.drop_last());
    if colon2.len() == 0 {
        return (String::new(), String::new(), last);
    }
    let first = colon2.remove(0);
    let mut slash_vec = split_str(first.as_str(), "/");
    proof {
        lemma_split_nonempty(first@, "/"@);
    }
    let ghost s0 = strs(slash_vec@);
    let ns_first = slash_vec.pop().unwrap();
    assert(strs(slash_vec@) =~= s0.drop_last());
    colon2.insert(0, ns_first);
    assert(strs(colon2@) =~= seq![s0.last()] + c0.drop_last().drop_first());
    (join_strs(&slash_vec, "/"), join_strs(&colon2, "::"), last)
}

/// An identifier that is qualified by at least one `::`.
pub open spec fn is_qualified(id: Seq<char>) -> bool {
    split_on(id, "::"@).len() > 1
}

/// An identifier without any `::` qualification.
#[derive(Debug, PartialEq, Eq)]
pub struct DecompositionError {
    pub id: String,
}

/// `path_parts` for an identifier that must be qualified; an unqualified one is an error.
pub fn decompose(id: &str) -> (r: Result<(String, String, String), DecompositionError>)
    ensures
        is_qualified(id@) ==> (r matches Ok(p) && (p.0@, p.1@, p.2@) == parts_of(id@)),
        !is_qualified(id@) ==> (r matches Err(e) && e.id@ == id@),
{
    proof {
        reveal_strlit("::");
    }
    let pieces = split_str(id, "::");
    if pieces.len() > 1 {
        Ok(path_parts(id))
    } else {
        Err(DecompositionError { id: id.to_owned() })
    }
}

/// Whether `char::is_uppercase` holds of a char (the Unicode `Uppercase` property).
pub uninterp spec fn is_upper(c: char) -> bool;

/// The chars of `char::to_lowercase` of a char (Unicode lowercase mapping).
pub uninterp spec fn lower_of(c: char) -> Seq<char>;

/// Relies on `char::is_uppercase`.
#[verifier::external_body]
fn char_is_uppercase(c: char) -> (r: bool)
    ensures
        r == is_upper(c),
{
    c.is_uppercase()
}

/// Relies on `char::to_lowercase`, collected into a string.
#[verifier::external_body]
fn char_to_lowercase(c: char) -> (r: String)
    ensures
        r@ == lower_of(c),
{
    c.to_lowercase().to_string()
}

/// What the char `c` at position `i` turns into, given whether it is uppercase and its
/// lowercase form: an uppercase char becomes its lowercase form, preceded by `_` unless
/// it stands first; any other char stays.
pub open spec fn snake_piece(c: char, upper: bool, lower: Seq<char>, i: int) -> Seq<char> {
    if upper {
        if i != 0 {
            seq!['_'] + lower
        } else {
            lower
        }
    } else {
        seq![c]
    }
}

/// The conversion of the first `n` chars of `s`, given for each char whether it is
/// uppercase and its lowercase form.
pub open spec fn snake_build(s: Seq<char>, upper: Seq<bool>, lower: Seq<Seq<char>>, n: int) -> Seq<char>
    decreases n,
{
    if n <= 0 {
        Seq::<char>::empty()
    } else {
        snake_build(s, upper, lower, n - 1) + snake_piece(s[n - 1], upper[n - 1], lower[n - 1], n - 1)
    }
}

/// The lowercase-with-underscores form of a CamelCase name, with two fixed exceptions:
/// `AppHash` becomes `hash` and `Type` becomes `msg_type`.
pub open spec fn snake_of(s: Seq<char>) -> Seq<char> {
    if s == "AppHash"@ {
        "hash"@
    } else if s == "Type"@ {
        "msg_type"@
    } else {
        snake_build(
            s,
            Seq::new(s.len(), |i: int| is_upper(s[i])),
            Seq::new(s.len(), |i: int| lower_of(s[i])),
            s.len() as int,
        )
    }
}

/// Builds the snake_case form of `s` from, for each char, whether it is uppercase and
/// its lowercase form.
pub fn snake_from_parts(s: &str, upper: &Vec<bool>, lower: &Vec<String>) -> (r: String)
    requires
        upper@.len() == s@.len(),
        lower@.len() == s@.len(),
    ensures
        r@ == snake_build(s@, upper@, strs(lower@), s@.len() as int),
{
    let n = s.unicode_len();
    let mut r = String::new();
    let mut i: usize = 0;
    while i < n
        invariant
            n == s@.len(),
            upper@.len() == n,
            lower@.len() == n,
            i <= n,
            r@ == snake_build(s@, upper@, strs(lower@), i as int),
        decreases n - i,
    {
        if upper[i] {
            if i != 0 {
                r.append("_");
                proof {
                    reveal_strlit("_");
                }
            }
            r.append(lower[i].as_str());
        } else {
            let one = s.substring_char(i, i + 1);
            assert(one@ =~= seq![s@[i as int]]);
            r.append(one);
        }
        assert(r@ =~= snake_build(s@, upper@, strs(lower@), i + 1));
        i = i + 1;
    }
    r
}

/// CamelCase to snake_case.
pub fn camelcase_to_snakecase(s: &str) -> (r: String)
    ensures
        r@ == snake_of(s@),
{
    let owned = s.to_owned();
    if owned == String::from_str("AppHash") {
        return String::from_str("hash");
    }
    if owned == String::from_str("Type") {
        return String::from_str("msg_type");
    }
    let cs = chars_of(s);
    let mut upper: Vec<bool> = Vec::new();
    let mut lower: Vec<String> = Vec::new();
    let mut i: usize = 0;
    while i < cs.len()
        invariant
            cs@ == s@,
            i <= cs@.len(),
            upper@ == Seq::new(i as nat, |k: int| is_upper(s@[k])),
            strs(lower@) == Seq::new(i as nat, |k: int| lower_of(s@[k])),
        decreases cs@.len() - i,
    {
        let ghost lb = lower@;
        upper.push(char_is_uppercase(cs[i]));
        let low = char_to_lowercase(cs[i]);
        lower.push(low);
        assert(upper@ =~= Seq::new((i + 1) as nat, |k: int| is_upper(s@[k])));
        assert(lower@ =~= lb.push(low));
        assert(strs(lower@) =~= strs(lb).push(low@));
        assert(strs(lower@) =~= Seq::new((i + 1) as nat, |k: int| lower_of(s@[k])));
        i = i + 1;
    }
    snake_from_parts(s, &upper, &lower)
}

/// Lexicographic order on chars by code point; a proper prefix comes first.
pub open spec fn lex_lt(a: Seq<char>, b: Seq<char>) -> bool
    decreases a.len(),
{
    if a.len() == 0 {
        b.len() > 0
    } else if b.len() == 0 {
        false
    } else if a[0] != b[0] {
        (a[0] as int) < (b[0] as int)
    } else {
        lex_lt(a.drop_first(), b.drop_first())
    }
}

pub proof fn lemma_lex_irreflexive(a: Seq<char>)
    ensures
        !lex_lt(a, a),
    decreases a.len(),
{
    if a.len() > 0 {
        lemma_lex_irreflexive(a.drop_first());
    }
}

pub proof fn lemma_lex_transitive(a: Seq<char>, b: Seq<char>, c: Seq<char>)
    requires
        lex_lt(a, b),
        lex_lt(b, c),
    ensures
        lex_lt(a, c),
    decreases a.len(),
{
    if a.len() > 0 && b.len() > 0 && c.len() > 0 {
        if a[0] == b[0] && b[0] == c[0] {
            lemma_lex_transitive(a.drop_first(), b.drop_first(), c.drop_first());
        }
    }
}

pub proof fn lemma_lex_total(a: Seq<char>, b: Seq<char>)
    requires
        a != b,
    ensures
        lex_lt(a, b) || lex_lt(b, a),
    decreases a.len(),
{
    if a.len() > 0 && b.len() > 0 && a[0] == b[0] {
        if a.drop_first() == b.drop_first() {
            assert(a =~= seq![a[0]] + a.drop_first());
            assert(b =~= seq![b[0]] + b.drop_first());
        }
        lemma_lex_total(a.drop_first(), b.drop_first());
    } else if a.len() == 0 && b.len() == 0 {
        assert(a =~= b);
    } else if a.len() > 0 && b.len() > 0 {
        assert((a[0] as int) != (b[0] as int));
    }
}

/// Whether `a` comes strictly before `b` in lexicographic order.
pub fn str_lt(a: &str, b: &str) -> (r: bool)
    ensures
        r == lex_lt(a@, b@),
{
    let x = chars_of(a);
    let y = chars_of(b);
    let mut i: usize = 0;
    assert(a@.subrange(0, a@.len() as int) =~= a@);
    assert(b@.subrange(0, b@.len() as int) =~= b@);
    while i < x.len() && i < y.len() && x[i] == y[i]
        invariant
            x@ == a@,
            y@ == b@,
            i <= x@.len(),
            i <= y@.len(),
            lex_lt(a@, b@) == lex_lt(a@.subrange(i as int, a@.len() as int), b@.subrange(i as int, b@.len() as int)),
        decreases x@.len() - i,
    {
        let ghost ta = a@.subrange(i as int, a@.len() as int);
        let ghost tb = b@.subrange(i as int, b@.len() as int);
        assert(ta.drop_first() =~= a@.subrange(i + 1, a@.len() as int));
        assert(tb.drop_first() =~= b@.subrange(i + 1, b@.len() as int));
        i = i + 1;
    }
    let ghost ta = a@.subrange(i as int, a@.len() as int);
    let ghost tb = b@.subrange(i as int, b@.len() as int);
    if i == x.len() {
        i < y.len()
    } else if i == y.len() {
        false
    } else {
        assert(ta[0] == x@[i as int] && tb[0] == y@[i as int]);
        x[i] < y[i]
    }
}

/// Joining a split again gives back the string.
pub proof fn lemma_join_split(s: Seq<char>, sep: Seq<char>)
    requires
        sep.len() > 0,
    ensures
        join_all(split_on(s, sep), sep) == s,
    decreases s.len(),
{
    if s.len() >= sep.len() && s.subrange(0, sep.len() as int) == sep {
        let t = s.subrange(sep.len() as int, s.len() as int);
        lemma_join_split(t, sep);
        lemma_split_nonempty(t, sep);
        lemma_join_cons(Seq::<char>::empty(), split_on(t, sep), sep);
        assert(s =~= sep + t);
        assert(Seq::<char>::empty() + sep + t =~= sep + t);
    } else if s.len() == 0 {
    } else {
        let r = split_on(s.drop_first(), sep);
        lemma_join_split(s.drop_first(), sep);
        lemma_split_nonempty(s.drop_first(), sep);
        lemma_join_update_first(r, seq![s[0]], sep);
        assert(s =~= seq![s[0]] + s.drop_first());
    }
}

/// Joining `x` in front of a non-empty list.
pub proof fn lemma_join_cons(x: Seq<char>, r: Seq<Seq<char>>, sep: Seq<char>)
    requires
        r.len() >= 1,
    ensures
        join_all(seq![x] + r, sep) == x + sep + join_all(r, sep),
    decreases r.len(),
{
    let l = seq![x] + r;
    if r.len() == 1 {
        assert(l.drop_last() =~= seq![x]);
        assert(l.last() == r[0]);
        assert(join_all(seq![x], sep) == x);
    } else {
        assert(l.drop_last() =~= seq![x] + r.drop_last());
        assert(l.last() == r.last());
        assert(join_all(r, sep) == join_all(r.drop_last(), sep) + sep + r.last());
        lemma_join_cons(x, r.drop_last(), sep);
        assert(x + sep + join_all(r.drop_last(), sep) + sep + r.last() =~= x + sep + (join_all(
            r.drop_last(),
            sep,
        ) + sep + r.last()));
    }
}

/// Putting `p` in front of the first piece puts it in front of the join.
pub proof fn lemma_join_update_first(r: Seq<Seq<char>>, p: Seq<char>, sep: Seq<char>)
    requires
        r.len() >= 1,
    ensures
        join_all(r.update(0, p + r[0]), sep) == p + join_all(r, sep),
    decreases r.len(),
{
    let u = r.update(0, p + r[0]);
    if r.len() == 1 {
    } else {
        assert(u.drop_last() =~= r.drop_last().update(0, p + r.drop_last()[0]));
        lemma_join_update_first(r.drop_last(), p, sep);
        assert(p + join_all(r.drop_last(), sep) + sep + r.last() =~= p + (join_all(r.drop_last(), sep)
            + sep + r.last()));
    }
}

/// Every piece of the identifier between `::` is non-empty, and so is every `/` piece
/// of the first one.
pub open spec fn plain_pieces(id: Seq<char>) -> bool {
    let c = split_on(id, "::"@);
    &&& forall|i: int| 0 <= i < c.len() ==> (#[trigger] c[i]).len() > 0
    &&& forall|j: int|
        0 <= j < split_on(c[0], "/"@).len() ==> (#[trigger] split_on(c[0], "/"@)[j]).len() > 0
}

/// An identifier such as `a/b::c::D`, qualified and with no empty piece, is given back
/// by joining its module path and namespace with `/`, then the short name with `::`.
pub proof fn lemma_parts_round_trip(id: Seq<char>)
    requires
        is_qualified(id),
        plain_pieces(id),
    ensures
        join_spec(join_spec(parts_of(id).0, parts_of(id).1, "/"@), parts_of(id).2, "::"@) == id,
{
    reveal_strlit("::");
    reveal_strlit("/");
    let c = split_on(id, "::"@);
    let rest = c.drop_last();
    let last = c.last();
    let sl = split_on(rest[0], "/"@);
    lemma_split_nonempty(rest[0], "/"@);
    lemma_join_split(id, "::"@);
    lemma_join_split(rest[0], "/"@);
    let m = join_all(sl.drop_last(), "/"@);
    let n = join_all(seq![sl.last()] + rest.drop_first(), "::"@);
    assert(sl.last().len() > 0);
    assert(c[c.len() - 1].len() > 0);
    // the namespace is not empty
    if rest.len() == 1 {
        assert(seq![sl.last()] + rest.drop_first() =~= seq![sl.last()]);
    } else {
        lemma_join_cons(sl.last(), rest.drop_first(), "::"@);
        lemma_join_cons(rest[0], rest.drop_first(), "::"@);
        assert(seq![rest[0]] + rest.drop_first() =~= rest);
    }
    assert(n.len() > 0);
    // the module path is empty exactly when the first piece has no `/`
    if sl.len() > 1 {
        let d = sl.drop_last();
        if d.len() > 1 {
            assert(d.last() == sl[d.len() - 1]);
        }
        assert(d.last().len() > 0);
        assert(m.len() > 0);
        assert(rest[0] == m + "/"@ + sl.last());
        if rest.len() > 1 {
            assert(join_all(rest, "::"@) == rest[0] + "::"@ + join_all(rest.drop_first(), "::"@));
            assert(n == sl.last() + "::"@ + join_all(rest.drop_first(), "::"@));
            assert(join_all(rest, "::"@) =~= m + "/"@ + n);
        } else {
            assert(join_all(rest, "::"@) =~= m + "/"@ + n);
        }
    } else {
        assert(sl.drop_last() =~= Seq::<Seq<char>>::empty());
        assert(rest[0] == sl.last());
        if rest.len() > 1 {
            assert(join_all(rest, "::"@) == rest[0] + "::"@ + join_all(rest.drop_first(), "::"@));
        }
        assert(join_all(rest, "::"@) == n);
    }
    assert(join_all(c, "::"@) == join_all(rest, "::"@) + "::"@ + last);
}

/// Type names that never name a registry type: integers, `bool`, containers and a few
/// standard-library utility types.
pub open spec fn wrapper_names() -> Seq<Seq<char>> {
    seq!["i64"@, "u64"@, "i32"@, "u32"@, "i16"@, "u16"@, "i8"@, "u8"@, "Option"@, "Vec"@, "bool"@, "Box"@, "String"@, "std::time::Duration"@, "PathBuf"@, "BTreeMap"@]
}

/// Whether a type name is one of the wrapper names.
pub fn is_wrapper_name(ident: &str) -> (r: bool)
    ensures
        r == wrapper_names().contains(ident@),
{
    let mut names: Vec<String> = Vec::new();
    names.push(String::from_str("i64"));
    names.push(String::from_str("u64"));
    names.push(String::from_str("i32"));
    names.push(String::from_str("u32"));
    names.push(String::from_str("i16"));
    names.push(String::from_str("u16"));
    names.push(String::from_str("i8"));
    names.push(String::from_str("u8"));
    names.push(String::from_str("Option"));
    names.push(String::from_str("Vec"));
    names.push(String::from_str("bool"));
    names.push(String::from_str("Box"));
    names.push(String::from_str("String"));
    names.push(String::from_str("std::time::Duration"));
    names.push(String::from_str("PathBuf"));
    names.push(String::from_str("BTreeMap"));
    assert(strs(names@) =~= wrapper_names());
    contains_str(&names, &ident.to_owned())
}

/// The type names found in one path segment: those of its generic arguments, then the
/// whole path's name unless it is a wrapper name.
pub fn with_path_ident(nested: Vec<String>, ident: &str) -> (r: Vec<String>)
    ensures
        strs(r@) == if wrapper_names().contains(ident@) {
            strs(nested@)
        } else {
            strs(nested@).push(ident@)
        },
{
    let mut r = nested;
    if !is_wrapper_name(ident) {
        let ghost before = r@;
        r.push(ident.to_owned());
        assert(strs(r@) =~= strs(before).push(ident@));
    }
    r
}

/// Strictly ascending in lexicographic order.
pub open spec fn strictly_sorted(s: Seq<Seq<char>>) -> bool {
    forall|i: int, j: int| 0 <= i < j < s.len() ==> lex_lt(#[trigger] s[i], #[trigger] s[j])
}

/// The strictly ascending sequence holding exactly the elements of `s`.
pub open spec fn sorted_of(s: Set<Seq<char>>) -> Seq<Seq<char>> {
    choose|q: Seq<Seq<char>>| strictly_sorted(q) && q.to_set() == s
}

/// Two strictly ascending sequences with the same elements are equal.
pub proof fn lemma_sorted_unique(a: Seq<Seq<char>>, b: Seq<Seq<char>>)
    requires
        strictly_sorted(a),
        strictly_sorted(b),
        a.to_set() == b.to_set(),
    ensures
        a == b,
    decreases a.len(),
{
    if a.len() == 0 {
        if b.len() > 0 {
            assert(b.to_set().contains(b[0]));
            assert(!a.to_set().contains(b[0]));
        }
        assert(a =~= b);
    } else {
        assert(a.to_set().contains(a[0]));
        assert(b.to_set().contains(a[0]));
        assert(b.contains(a[0]));
        let j = choose|j: int| 0 <= j < b.len() && b[j] == a[0];
        assert(a.contains(b[0])) by {
            assert(b.to_set().contains(b[0]));
        }
        let i = choose|i: int| 0 <= i < a.len() && a[i] == b[0];
        lemma_lex_irreflexive(a[0]);
        if j > 0 && i > 0 {
            assert(lex_lt(b[0], b[j]));
            assert(lex_lt(a[0], a[i]));
            lemma_lex_transitive(a[0], b[0], a[0]);
        } else if j > 0 {
            assert(lex_lt(b[0], b[j]));
        }
        assert(a[0] == b[0]);
        let a1 = a.drop_first();
        let b1 = b.drop_first();
        assert forall|x: Seq<char>| a1.to_set().contains(x) <==> b1.to_set().contains(x) by {
            if a1.contains(x) {
                let k = choose|k: int| 0 <= k < a1.len() && a1[k] == x;
                assert(lex_lt(a[0], a[k + 1]));
                assert(a.to_set().contains(x));
                assert(b.contains(x));
                let l = choose|l: int| 0 <= l < b.len() && b[l] == x;
                if l == 0 {
                    lemma_lex_irreflexive(x);
                }
                assert(b1[l - 1] == x);
            }
            if b1.contains(x) {
                let k = choose|k: int| 0 <= k < b1.len() && b1[k] == x;
                assert(lex_lt(b[0], b[k + 1]));
                assert(b.to_set().contains(x));
                assert(a.contains(x));
                let l = choose|l: int| 0 <= l < a.len() && a[l] == x;
                if l == 0 {
                    lemma_lex_irreflexive(x);
                }
                assert(a1[l - 1] == x);
            }
        }
        assert(a1.to_set() =~= b1.to_set());
        lemma_sorted_unique(a1, b1);
        assert(a =~= seq![a[0]] + a1);
        assert(b =~= seq![b[0]] + b1);
    }
}

/// Adds `x` to a strictly ascending list, where it is not there yet.
fn insert_sorted(v: &mut Vec<String>, x: &String)
    requires
        strictly_sorted(strs(old(v)@)),
    ensures
        strictly_sorted(strs(final(v)@)),
        strs(final(v)@).to_set() == strs(old(v)@).to_set().insert(x@),
{
    let ghost o = strs(v@);
    let mut pos: usize = 0;
    while pos < v.len() && str_lt(v[pos].as_str(), x.as_str())
        invariant
            o == strs(v@),
            strictly_sorted(o),
            pos <= o.len(),
            forall|k: int| 0 <= k < pos ==> lex_lt(#[trigger] o[k], x@),
        decreases o.len() - pos,
    {
        pos = pos + 1;
    }
    if pos < v.len() && v[pos] == *x {
        assert(o.to_set() =~= o.to_set().insert(x@)) by {
            assert(o[pos as int] == x@);
        }
        return;
    }
    proof {
        if pos < o.len() {
            lemma_lex_total(o[pos as int], x@);
            assert(lex_lt(x@, o[pos as int]));
        }
    }
    v.insert(pos, x.clone());
    proof {
        let n = strs(v@);
        assert(n =~= o.insert(pos as int, x@));
        assert forall|i: int, j: int| 0 <= i < j < n.len() implies lex_lt(#[trigger] n[i], #[trigger] n[j]) by {
            if j > pos {
                if j - 1 > pos {
                    lemma_lex_transitive(x@, o[pos as int], o[j - 1]);
                }
                assert(lex_lt(x@, n[j]));
            }
            if i < pos && j > pos {
                lemma_lex_transitive(n[i], x@, n[j]);
            }
        }
        assert forall|y: Seq<char>| n.contains(y) <==> (o.contains(y) || y == x@) by {
            if n.contains(y) {
                let j = choose|j: int| 0 <= j < n.len() && n[j] == y;
                if j < pos {
                    assert(o[j] == y);
                } else if j > pos {
                    assert(o[j - 1] == y);
                }
            }
            if o.contains(y) {
                let j = choose|j: int| 0 <= j < o.len() && o[j] == y;
                if j < pos {
                    assert(n[j] == y);
                } else {
                    assert(n[j + 1] == y);
                }
            }
            if y == x@ {
                assert(n[pos as int] == y);
            }
        }
        assert(n.to_set() =~= o.to_set().insert(x@));
    }
}

/// The strings of `v` in strictly ascending order, each once.
pub fn sorted_unique(v: &Vec<String>) -> (r: Vec<String>)
    ensures
        strs(r@) == sorted_of(strs(v@).to_set()),
        strictly_sorted(strs(r@)),
        strs(r@).to_set() == strs(v@).to_set(),
{
    let mut r: Vec<String> = Vec::new();
    let mut i: usize = 0;
    assert(strs(r@).to_set() =~= strs(v@).subrange(0, 0).to_set());
    while i < v.len()
        invariant
            i <= v@.len(),
            strictly_sorted(strs(r@)),
            strs(r@).to_set() == strs(v@).subrange(0, i as int).to_set(),
        decreases v@.len() - i,
    {
        insert_sorted(&mut r, &v[i]);
        assert(strs(v@).subrange(0, i + 1) =~= strs(v@).subrange(0, i as int).push(v@[i as int]@));
        proof {
            let a = strs(v@).subrange(0, i as int);
            let b = strs(v@).subrange(0, i + 1);
            assert forall|y: Seq<char>| b.contains(y) <==> (a.contains(y) || y == v@[i as int]@) by {
                if b.contains(y) {
                    let j = choose|j: int| 0 <= j < b.len() && b[j] == y;
                    if j < i {
                        assert(a[j] == y);
                    }
                }
                if a.contains(y) {
                    let j = choose|j: int| 0 <= j < a.len() && a[j] == y;
                    assert(b[j] == y);
                }
                if y == v@[i as int]@ {
                    assert(b[i as int] == y);
                }
            }
            assert(b.to_set() =~= a.to_set().insert(v@[i as int]@));
        }
        i = i + 1;
    }
    assert(strs(v@).subrange(0, v@.len() as int) =~= strs(v@));
    proof {
        let s = sorted_of(strs(v@).to_set());
        lemma_sorted_unique(s, strs(r@));
    }
    r
}

} // verus!
