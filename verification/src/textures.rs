//! Which image files in the asset folder are blocks, and which id each
//! block gets.
use vstd::prelude::*;
use crate::text::{chars_of, string_from_chars, string_views, char_views};

verus! {

/// The file extension of block textures.
pub open spec fn png_extension() -> Seq<char> {
    seq!['.', 'p', 'n', 'g']
}

/// The name of the ground block, which always has id 0.
pub open spec fn ground_stem() -> Seq<char> {
    seq!['0']
}

/// The block name that the file `name` gives: its name before `.png`, if it
/// ends in `.png` with something before it.
pub open spec fn png_stem(name: Seq<char>) -> Option<Seq<char>> {
    if name.len() > 4 && name.skip(name.len() - 4) == png_extension() {
        Some(name.take(name.len() - 4))
    } else {
        None
    }
}

/// `a` comes before `b` in dictionary order, for names of one length.
pub open spec fn lex_lt(a: Seq<char>, b: Seq<char>) -> bool
    decreases a.len(),
{
    if a.len() == 0 || b.len() == 0 {
        false
    } else if a[0] != b[0] {
        a[0] < b[0]
    } else {
        lex_lt(a.drop_first(), b.drop_first())
    }
}

/// The order of block names: shorter names first, names of one length in
/// dictionary order. Numbers written without leading zeros come out in
/// numeric order.
pub open spec fn name_lt(a: Seq<char>, b: Seq<char>) -> bool {
    a.len() < b.len() || (a.len() == b.len() && lex_lt(a, b))
}

/// `s` is the name of a block other than the ground: some file of `names`
/// is `s.png`.
pub open spec fn is_block_stem(names: Seq<Seq<char>>, s: Seq<char>) -> bool {
    s != ground_stem() && exists|i: int| 0 <= i < names.len() && #[trigger] png_stem(names[i]) == Some(s)
}

/// `names` are the blocks, by id, that the files `files` give: the ground
/// first, then every other block name exactly once, in the order of names.
pub open spec fn block_names_of(files: Seq<Seq<char>>, names: Seq<Seq<char>>) -> bool {
    &&& names.len() >= 1
    &&& names[0] == ground_stem()
    &&& forall|i: int| 1 <= i < names.len() ==> is_block_stem(files, #[trigger] names[i])
    &&& forall|s: Seq<char>|
        is_block_stem(files, s) ==> exists|i: int| 1 <= i < names.len() && #[trigger] names[i] == s
    &&& forall|i: int, j: int|
        1 <= i < j < names.len() ==> name_lt(#[trigger] names[i], #[trigger] names[j])
}

/// Every name of `s` comes strictly before the next ones.
pub open spec fn names_sorted(s: Seq<Seq<char>>) -> bool {
    forall|i: int, j: int| 0 <= i < j < s.len() ==> name_lt(#[trigger] s[i], #[trigger] s[j])
}

proof fn lemma_lex_irreflexive(a: Seq<char>)
    ensures
        !lex_lt(a, a),
    decreases a.len(),
{
    if a.len() > 0 {
        lemma_lex_irreflexive(a.drop_first());
    }
}

proof fn lemma_lex_total(a: Seq<char>, b: Seq<char>)
    requires
        a.len() == b.len(),
        a != b,
    ensures
        lex_lt(a, b) || lex_lt(b, a),
    decreases a.len(),
{
    if a.len() == 0 {
        assert(a =~= b);
    } else if a[0] == b[0] {
        if a.drop_first() == b.drop_first() {
            assert(a =~= b) by {
                assert forall|i: int| 0 <= i < a.len() implies a[i] == b[i] by {
                    if i > 0 {
                        assert(a[i] == a.drop_first()[i - 1]);
                        assert(b[i] == b.drop_first()[i - 1]);
                    }
                }
            }
        }
        lemma_lex_total(a.drop_first(), b.drop_first());
    }
}

proof fn lemma_lex_transitive(a: Seq<char>, b: Seq<char>, c: Seq<char>)
    requires
        a.len() == b.len(),
        b.len() == c.len(),
        lex_lt(a, b),
        lex_lt(b, c),
    ensures
        lex_lt(a, c),
    decreases a.len(),
{
    if a.len() > 0 && a[0] == b[0] && b[0] == c[0] {
        lemma_lex_transitive(a.drop_first(), b.drop_first(), c.drop_first());
    }
}

/// The order of block names is strict, total and transitive.
pub proof fn lemma_name_order(a: Seq<char>, b: Seq<char>, c: Seq<char>)
    ensures
        !name_lt(a, a),
        a != b ==> name_lt(a, b) || name_lt(b, a),
        name_lt(a, b) && name_lt(b, c) ==> name_lt(a, c),
{
    lemma_lex_irreflexive(a);
    if a != b && a.len() == b.len() {
        lemma_lex_total(a, b);
    }
    if name_lt(a, b) && name_lt(b, c) && a.len() == b.len() && b.len() == c.len() {
        lemma_lex_transitive(a, b, c);
    }
}

/// Whether `a` and `b` hold the same characters.
fn same_chars(a: &Vec<char>, b: &Vec<char>) -> (r: bool)
    ensures
        r == (a@ == b@),
{
    if a.len() != b.len() {
        return false;
    }
    let mut i: usize = 0;
    while i < a.len()
        invariant
            a@.len() == b@.len(),
            0 <= i <= a@.len(),
            forall|j: int| 0 <= j < i ==> a@[j] == b@[j],
        decreases a@.len() - i,
    {
        if a[i] != b[i] {
            return false;
        }
        i = i + 1;
    }
    assert(a@ =~= b@);
    true
}

/// Whether `a` comes before `b` in the order of block names.
fn name_less(a: &Vec<char>, b: &Vec<char>) -> (r: bool)
    ensures
        r == name_lt(a@, b@),
{
    if a.len() != b.len() {
        return a.len() < b.len();
    }
    let n = a.len();
    let mut i: usize = 0;
    assert(a@.skip(0) =~= a@ && b@.skip(0) =~= b@);
    while i < n
        invariant
            n == a@.len(),
            n == b@.len(),
            0 <= i <= n,
            lex_lt(a@, b@) == lex_lt(a@.skip(i as int), b@.skip(i as int)),
        decreases n - i,
    {
        let ghost sa = a@.skip(i as int);
        let ghost sb = b@.skip(i as int);
        assert(sa[0] == a@[i as int] && sb[0] == b@[i as int]);
        if a[i] != b[i] {
            return a[i] < b[i];
        }
        assert(sa.drop_first() =~= a@.skip(i + 1));
        assert(sb.drop_first() =~= b@.skip(i + 1));
        i = i + 1;
    }
    assert(a@.skip(n as int).len() == 0);
    false
}

/// The block name that the file `name` gives, as `png_stem` says.
fn png_stem_of(name: &Vec<char>) -> (stem: Option<Vec<char>>)
    ensures
        match stem {
            Some(s) => png_stem(name@) == Some(s@),
            None => png_stem(name@) is None,
        },
{
    let n = name.len();
    if n <= 4 {
        return None;
    }
    let ok = name[n - 4] == '.' && name[n - 3] == 'p' && name[n - 2] == 'n' && name[n - 1] == 'g';
    if ok {
        assert(name@.skip(n - 4) =~= png_extension());
    } else {
        proof {
            if name@.skip(n - 4) == png_extension() {
                assert(name@.skip(n - 4)[0] == name@[n - 4]);
                assert(name@.skip(n - 4)[1] == name@[n - 3]);
                assert(name@.skip(n - 4)[2] == name@[n - 2]);
                assert(name@.skip(n - 4)[3] == name@[n - 1]);
            }
        }
        return None;
    }
    let mut stem: Vec<char> = Vec::new();
    let mut i: usize = 0;
    while i < n - 4
        invariant
            n == name@.len(),
            n > 4,
            0 <= i <= n - 4,
            stem@ == name@.take(i as int),
        decreases n - 4 - i,
    {
        stem.push(name[i]);
        assert(name@.take(i + 1) =~= name@.take(i as int).push(name@[i as int]));
        i = i + 1;
    }
    Some(stem)
}

/// Adds `x` to the sorted names `list`, where it belongs, unless it is
/// already there.
fn insert_name(list: &mut Vec<Vec<char>>, x: Vec<char>)
    requires
        names_sorted(char_views(old(list)@)),
    ensures
        names_sorted(char_views(final(list)@)),
        forall|s: Seq<char>| #[trigger] char_views(final(list)@).contains(s) <==> (char_views(
            old(list)@,
        ).contains(s) || s == x@),
{
    let ghost before = char_views(list@);
    let n = list.len();
    let mut i: usize = 0;
    while i < n
        invariant
            n == list@.len(),
            0 <= i <= n,
            list@ == old(list)@,
            before == char_views(list@),
            names_sorted(before),
            forall|k: int| 0 <= k < i ==> name_lt(#[trigger] before[k], x@),
        decreases n - i,
    {
        assert(before[i as int] == list@[i as int]@);
        if same_chars(&list[i], &x) {
            assert(before.contains(x@));
            return;
        }
        if name_less(&x, &list[i]) {
            let ghost xv = x@;
            list.insert(i, x);
            let ghost after = char_views(list@);
            assert(after =~= before.insert(i as int, xv));
            assert forall|a: int, b: int| 0 <= a < b < after.len() implies name_lt(
                #[trigger] after[a],
                #[trigger] after[b],
            ) by {
                if b < i {
                } else if b == i {
                    assert(after[a] == before[a]);
                } else if a == i {
                    assert(after[b] == before[b - 1]);
                    if b - 1 > i {
                        assert(name_lt(before[i as int], before[b - 1]));
                        lemma_name_order(xv, before[i as int], before[b - 1]);
                    }
                } else if a < i {
                    assert(after[a] == before[a]);
                    assert(after[b] == before[b - 1]);
                } else {
                    assert(after[a] == before[a - 1]);
                    assert(after[b] == before[b - 1]);
                }
            }
            assert forall|s: Seq<char>| #[trigger] after.contains(s) <==> (before.contains(s)
                || s == xv) by {
                if after.contains(s) {
                    let k = choose|k: int| 0 <= k < after.len() && after[k] == s;
                    if k > i {
                        assert(after[k] == before[k - 1]);
                    } else if k < i {
                        assert(after[k] == before[k]);
                    }
                }
                if before.contains(s) {
                    let k = choose|k: int| 0 <= k < before.len() && before[k] == s;
                    if k >= i {
                        assert(after[k + 1] == before[k]);
                    } else {
                        assert(after[k] == before[k]);
                    }
                }
                if s == xv {
                    assert(after[i as int] == xv);
                }
            }
            return;
        }
        proof {
            lemma_name_order(before[i as int], x@, before[i as int]);
        }
        i = i + 1;
    }
    let ghost xv = x@;
    list.push(x);
    let ghost after = char_views(list@);
    assert(after =~= before.push(xv));
    assert forall|a: int, b: int| 0 <= a < b < after.len() implies name_lt(
        #[trigger] after[a],
        #[trigger] after[b],
    ) by {
        assert(after[a] == before[a]);
        if b < n {
            assert(after[b] == before[b]);
        }
    }
    assert forall|s: Seq<char>| #[trigger] after.contains(s) <==> (before.contains(s) || s == xv) by {
        if after.contains(s) {
            let k = choose|k: int| 0 <= k < after.len() && after[k] == s;
            if k < n {
                assert(after[k] == before[k]);
            }
        }
        if before.contains(s) {
            let k = choose|k: int| 0 <= k < before.len() && before[k] == s;
            assert(after[k] == before[k]);
        }
        if s == xv {
            assert(after[n as int] == xv);
        }
    }
}

/// The blocks that the image files `file_names` of the asset folder give,
/// by id: block 0 is the ground, `0.png`; every other file `name.png` is the
/// block `name`. These blocks get the ids from 1 up in the order of their
/// names, so the ids do not depend on the order in which the folder lists
/// its files.
pub fn block_names(file_names: &Vec<String>) -> (names: Vec<String>)
    ensures
        names@.len() >= 1,
        names@[0]@ == ground_stem(),
        forall|i: int|
            1 <= i < names@.len() ==> is_block_stem(
                string_views(file_names@),
                #[trigger] names@[i]@,
            ),
        forall|s: Seq<char>|
            is_block_stem(string_views(file_names@), s) ==> exists|i: int|
                1 <= i < names@.len() && #[trigger] names@[i]@ == s,
        forall|i: int, j: int|
            1 <= i < j < names@.len() ==> name_lt(#[trigger] names@[i]@, #[trigger] names@[j]@),
        forall|i: int, j: int|
            0 <= i < j < names@.len() ==> #[trigger] names@[i]@ != #[trigger] names@[j]@,
        block_names_of(string_views(file_names@), string_views(names@)),
{
    let ghost files = string_views(file_names@);
    let mut others: Vec<Vec<char>> = Vec::new();
    let ground: Vec<char> = vec!['0'];
    assert(ground@ =~= ground_stem());
    let n = file_names.len();
    let mut i: usize = 0;
    while i < n
        invariant
            n == file_names@.len(),
            files == string_views(file_names@),
            ground@ == ground_stem(),
            0 <= i <= n,
            names_sorted(char_views(others@)),
            forall|s: Seq<char>| #[trigger] char_views(others@).contains(s) <==> is_block_stem(
                files.take(i as int),
                s,
            ),
        decreases n - i,
    {
        let name = chars_of(file_names[i].as_str());
        assert(files[i as int] == name@);
        let ghost old_others = char_views(others@);
        let stem = png_stem_of(&name);
        match stem {
            Some(s) => {
                let ghost sv = s@;
                if !same_chars(&s, &ground) {
                    insert_name(&mut others, s);
                }
                assert forall|t: Seq<char>| #[trigger] char_views(others@).contains(t)
                    <==> is_block_stem(files.take(i + 1), t) by {
                    if is_block_stem(files.take(i + 1), t) {
                        let k = choose|k: int| 0 <= k < i + 1 && #[trigger] png_stem(files.take(i + 1)[k]) == Some(t);
                        if k < i {
                            assert(files.take(i as int)[k] == files.take(i + 1)[k]);
                            assert(is_block_stem(files.take(i as int), t));
                        } else {
                            assert(files.take(i + 1)[k] == name@);
                        }
                    }
                    if is_block_stem(files.take(i as int), t) {
                        let k = choose|k: int| 0 <= k < i && #[trigger] png_stem(files.take(i as int)[k]) == Some(t);
                        assert(files.take(i + 1)[k] == files.take(i as int)[k]);
                    }
                    if t == sv && sv != ground_stem() {
                        assert(files.take(i + 1)[i as int] == name@);
                    }
                }
            },
            None => {
                assert forall|t: Seq<char>| #[trigger] char_views(others@).contains(t)
                    <==> is_block_stem(files.take(i + 1), t) by {
                    if is_block_stem(files.take(i + 1), t) {
                        let k = choose|k: int| 0 <= k < i + 1 && #[trigger] png_stem(files.take(i + 1)[k]) == Some(t);
                        assert(files.take(i + 1)[k] == files[k]);
                        if k < i {
                            assert(files.take(i as int)[k] == files[k]);
                        }
                    }
                    if is_block_stem(files.take(i as int), t) {
                        let k = choose|k: int| 0 <= k < i && #[trigger] png_stem(files.take(i as int)[k]) == Some(t);
                        assert(files.take(i + 1)[k] == files.take(i as int)[k]);
                    }
                }
            },
        }
        i = i + 1;
    }
    assert(files.take(n as int) =~= files);
    let mut names: Vec<String> = Vec::new();
    names.push(string_from_chars(&ground));
    let mut k: usize = 0;
    while k < others.len()
        invariant
            names@.len() == k + 1,
            0 <= k <= others@.len(),
            names@[0]@ == ground_stem(),
            forall|j: int| 0 <= j < k ==> #[trigger] names@[j + 1]@ == others@[j]@,
        decreases others@.len() - k,
    {
        let t = string_from_chars(&others[k]);
        names.push(t);
        k = k + 1;
    }
    let ghost views = char_views(others@);
    assert forall|i: int| 1 <= i < names@.len() implies is_block_stem(files, #[trigger] names@[i]@) by {
        assert(names@[(i - 1) + 1]@ == others@[i - 1]@);
        assert(views[i - 1] == others@[i - 1]@);
        assert(views.contains(names@[i]@));
    }
    assert forall|s: Seq<char>| is_block_stem(files, s) implies exists|i: int|
        1 <= i < names@.len() && #[trigger] names@[i]@ == s by {
        assert(views.contains(s));
        let j = choose|j: int| 0 <= j < views.len() && views[j] == s;
        assert(names@[j + 1]@ == others@[j]@);
    }
    assert forall|i: int, j: int| 1 <= i < j < names@.len() implies name_lt(
        #[trigger] names@[i]@,
        #[trigger] names@[j]@,
    ) by {
        assert(names@[(i - 1) + 1]@ == others@[i - 1]@);
        assert(names@[(j - 1) + 1]@ == others@[j - 1]@);
        assert(views[i - 1] == others@[i - 1]@ && views[j - 1] == others@[j - 1]@);
    }
    assert forall|i: int, j: int| 0 <= i < j < names@.len() implies #[trigger] names@[i]@
        != #[trigger] names@[j]@ by {
        assert(names@[(j - 1) + 1]@ == others@[j - 1]@);
        assert(views[j - 1] == others@[j - 1]@);
        assert(views.contains(names@[j]@));
        if i >= 1 {
            assert(names@[(i - 1) + 1]@ == others@[i - 1]@);
            assert(views[i - 1] == others@[i - 1]@);
            lemma_name_order(names@[i]@, names@[j]@, names@[j]@);
        }
    }
    let ghost nv = string_views(names@);
    assert forall|i: int| 0 <= i < names@.len() implies #[trigger] nv[i] == names@[i]@ by {}
    assert forall|s: Seq<char>| is_block_stem(files, s) implies exists|i: int|
        1 <= i < nv.len() && #[trigger] nv[i] == s by {
        let i = choose|i: int| 1 <= i < names@.len() && #[trigger] names@[i]@ == s;
        assert(nv[i] == s);
    }
    names
}

/// The block ids do not depend on the order in which the asset folder lists
/// its files: two listings of the same files give the same blocks, by id.
pub proof fn lemma_block_ids_ignore_listing_order(
    files1: Seq<Seq<char>>,
    files2: Seq<Seq<char>>,
    names1: Seq<Seq<char>>,
    names2: Seq<Seq<char>>,
)
    requires
        forall|f: Seq<char>| files1.contains(f) <==> files2.contains(f),
        block_names_of(files1, names1),
        block_names_of(files2, names2),
    ensures
        names1 == names2,
{
    assert forall|s: Seq<char>| is_block_stem(files1, s) <==> is_block_stem(files2, s) by {
        if is_block_stem(files1, s) {
            let i = choose|i: int| 0 <= i < files1.len() && #[trigger] png_stem(files1[i]) == Some(s);
            assert(files1.contains(files1[i]));
            let j = choose|j: int| 0 <= j < files2.len() && files2[j] == files1[i];
            assert(png_stem(files2[j]) == Some(s));
        }
        if is_block_stem(files2, s) {
            let i = choose|i: int| 0 <= i < files2.len() && #[trigger] png_stem(files2[i]) == Some(s);
            assert(files2.contains(files2[i]));
            let j = choose|j: int| 0 <= j < files1.len() && files1[j] == files2[i];
            assert(png_stem(files1[j]) == Some(s));
        }
    }
    lemma_sorted_names_agree(files1, names1, names2, 1);
}

/// Two sorted listings of the same block names agree from index `k` on,
/// given that they agree before it.
proof fn lemma_sorted_names_agree(
    files: Seq<Seq<char>>,
    names1: Seq<Seq<char>>,
    names2: Seq<Seq<char>>,
    k: int,
)
    requires
        1 <= k,
        k <= names1.len(),
        k <= names2.len(),
        names1.len() >= 1,
        names2.len() >= 1,
        names1[0] == names2[0],
        forall|j: int| 1 <= j < k ==> names1[j] == names2[j],
        forall|i: int| 1 <= i < names1.len() ==> is_block_stem(files, #[trigger] names1[i]),
        forall|s: Seq<char>|
            is_block_stem(files, s) ==> exists|i: int| 1 <= i < names1.len() && #[trigger] names1[i] == s,
        forall|i: int, j: int|
            1 <= i < j < names1.len() ==> name_lt(#[trigger] names1[i], #[trigger] names1[j]),
        forall|i: int| 1 <= i < names2.len() ==> is_block_stem(files, #[trigger] names2[i]),
        forall|s: Seq<char>|
            is_block_stem(files, s) ==> exists|i: int| 1 <= i < names2.len() && #[trigger] names2[i] == s,
        forall|i: int, j: int|
            1 <= i < j < names2.len() ==> name_lt(#[trigger] names2[i], #[trigger] names2[j]),
    ensures
        names1 == names2,
    decreases names1.len() + names2.len() - 2 * k,
{
    if k < names1.len() && k < names2.len() {
        let a = names1[k];
        let b = names2[k];
        if a != b {
            assert(is_block_stem(files, a));
            let m = choose|m: int| 1 <= m < names2.len() && #[trigger] names2[m] == a;
            assert(is_block_stem(files, b));
            let p = choose|p: int| 1 <= p < names1.len() && #[trigger] names1[p] == b;
            if m < k {
                assert(names1[m] == a);
                lemma_name_order(names1[m], names1[k], names1[k]);
            }
            if p < k {
                assert(names2[p] == b);
                lemma_name_order(names2[p], names2[k], names2[k]);
            }
            if m == k || p == k {
            } else {
                assert(name_lt(b, a));
                assert(name_lt(a, b));
                lemma_name_order(a, b, a);
            }
            assert(false);
        }
        lemma_sorted_names_agree(files, names1, names2, k + 1);
    } else if k < names1.len() {
        let a = names1[k];
        assert(is_block_stem(files, a));
        let m = choose|m: int| 1 <= m < names2.len() && #[trigger] names2[m] == a;
        assert(names1[m] == a);
        lemma_name_order(names1[m], names1[k], names1[k]);
        assert(false);
    } else if k < names2.len() {
        let b = names2[k];
        assert(is_block_stem(files, b));
        let p = choose|p: int| 1 <= p < names1.len() && #[trigger] names1[p] == b;
        assert(names2[p] == b);
        lemma_name_order(names2[p], names2[k], names2[k]);
        assert(false);
    } else {
        assert(names1 =~= names2);
    }
}

/// The texture file, under the asset folder, of the block named `name`.
pub fn texture_asset(name: &String) -> (path: String)
    ensures
        path@ == name@ + png_extension(),
        path@ == name@ + seq!['.', 'p', 'n', 'g'],
{
    let mut out = chars_of(name.as_str());
    out.push('.');
    out.push('p');
    out.push('n');
    out.push('g');
    assert(out@ =~= name@ + png_extension());
    string_from_chars(&out)
}

/// Every file named `s.png`, for any non-empty `s`, gives the block `s`,
/// whatever characters `s` holds; and a file gives a block only when its name
/// is that block's name followed by `.png`.
pub proof fn lemma_png_file_names(s: Seq<char>, name: Seq<char>)
    ensures
        s.len() > 0 ==> png_stem(s + seq!['.', 'p', 'n', 'g']) == Some(s),
        png_stem(name) matches Some(t) ==> t.len() > 0 && name == t + seq!['.', 'p', 'n', 'g'],
{
    let f = s + seq!['.', 'p', 'n', 'g'];
    assert(f.skip(f.len() - 4) =~= seq!['.', 'p', 'n', 'g']);
    assert(f.take(f.len() - 4) =~= s);
    if png_stem(name) is Some {
        let t = name.take(name.len() - 4);
        assert(name =~= t + name.skip(name.len() - 4));
    }
}

/// Every image file `s.png` in the asset folder is a block: its name `s`
/// has an id among the block names.
pub proof fn lemma_every_png_file_is_a_block(
    files: Seq<Seq<char>>,
    names: Seq<Seq<char>>,
    s: Seq<char>,
)
    requires
        block_names_of(files, names),
        s.len() > 0,
        files.contains(s + seq!['.', 'p', 'n', 'g']),
    ensures
        exists|i: int| 0 <= i < names.len() && names[i] == s,
{
    lemma_png_file_names(s, s);
    let k = choose|k: int| 0 <= k < files.len() && files[k] == s + seq!['.', 'p', 'n', 'g'];
    if s == seq!['0'] {
        assert(names[0] == s);
    } else {
        assert(png_stem(files[k]) == Some(s));
        assert(is_block_stem(files, s));
        let i = choose|i: int| 1 <= i < names.len() && #[trigger] names[i] == s;
        assert(names[i] == s);
    }
}

} // verus!
