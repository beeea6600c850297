//! Path rules on Unix-style paths, where `/` separates components.
//!
//! A canonical absolute path is modelled by the sequence of its normal
//! components (`/srv/files` is `["srv", "files"]`).
use vstd::prelude::*;

verus! {

/// The views of a sequence of strings.
pub open spec fn views(v: Seq<String>) -> Seq<Seq<char>> {
    v.map_values(|s: String| s@)
}

/// A path is absolute when it starts at the root directory.
pub open spec fn is_absolute_path(s: Seq<char>) -> bool {
    s.len() > 0 && s[0] == '/'
}

/// A `..` component starts at index `i` of `s`.
pub open spec fn parent_dir_at(s: Seq<char>, i: int) -> bool {
    &&& 0 <= i
    &&& i + 2 <= s.len()
    &&& s[i] == '.'
    &&& s[i + 1] == '.'
    &&& (i == 0 || s[i - 1] == '/')
    &&& (i + 2 == s.len() || s[i + 2] == '/')
}

/// The path holds a `..` component.
pub open spec fn has_parent_dir_component(s: Seq<char>) -> bool {
    exists|i: int| parent_dir_at(s, i)
}

/// The characters of a string, in order.
pub fn chars_of(s: &str) -> (r: Vec<char>)
    ensures
        r@ == s@,
{
    let mut r: Vec<char> = Vec::new();
    for c in it: s.chars()
        invariant
            r@ == it.seq().take(it.index() as int),
            it.seq() == s@,
    {
        r.push(c);
    }
    r
}

/// Whether the path is absolute.
pub fn is_absolute(s: &str) -> (r: bool)
    ensures
        r == is_absolute_path(s@),
{
    if s.is_empty() {
        false
    } else {
        s.get_char(0) == '/'
    }
}

/// Whether the path holds a `..` component.
pub fn contains_parent_dir(s: &str) -> (r: bool)
    ensures
        r == has_parent_dir_component(s@),
{
    let cs = chars_of(s);
    let n = cs.len();
    let mut i: usize = 0;
    while n >= 2 && i <= n - 2
        invariant
            cs@ == s@,
            n == cs@.len(),
            i <= n,
            forall|j: int| 0 <= j < i ==> !#[trigger] parent_dir_at(s@, j),
        decreases n - i,
    {
        if cs[i] == '.' && cs[i + 1] == '.' && (i == 0 || cs[i - 1] == '/') && (i + 2 == n
            || cs[i + 2] == '/') {
            assert(parent_dir_at(s@, i as int));
            return true;
        }
        i = i + 1;
    }
    assert forall|j: int| !#[trigger] parent_dir_at(s@, j) by {
        if 0 <= j < i {
        } else if j >= i {
            assert(!(j + 2 <= s@.len()));
        }
    }
    false
}

/// A component is kept when it is neither empty nor `.`.
pub open spec fn kept_component(c: Seq<char>) -> Seq<Seq<char>> {
    if c.len() == 0 || c == seq!['.'] {
        seq![]
    } else {
        seq![c]
    }
}

/// The components of `rest`, where `cur` is the component read so far.
pub open spec fn components_from(rest: Seq<char>, cur: Seq<char>) -> Seq<Seq<char>>
    decreases rest.len(),
{
    if rest.len() == 0 {
        kept_component(cur)
    } else if rest[0] == '/' {
        kept_component(cur) + components_from(rest.drop_first(), seq![])
    } else {
        components_from(rest.drop_first(), cur.push(rest[0]))
    }
}

/// The normal components of a path: the pieces between separators,
/// without empty pieces and without `.`.
pub open spec fn normal_components(s: Seq<char>) -> Seq<Seq<char>> {
    components_from(s, seq![])
}


/// Appends the component `s[start..end]` to `r` when it is kept.
fn push_component(r: &mut Vec<String>, s: &str, cs: &Vec<char>, start: usize, end: usize)
    requires
        cs@ == s@,
        start <= end <= s@.len(),
    ensures
        views(final(r)@) == views(old(r)@) + kept_component(s@.subrange(start as int, end as int)),
{
    let ghost c = s@.subrange(start as int, end as int);
    if end > start && !(end == start + 1 && cs[start] == '.') {
        let piece = String::from_str(s.substring_char(start, end));
        r.push(piece);
        proof {
            assert(c.len() == end - start);
            if c == seq!['.'] {
                assert(c[0] == cs@[start as int]);
            }
        }
        assert(kept_component(c) == seq![c]);
        assert(views(r@) =~= views(old(r)@) + seq![c]);
    } else {
        if end - start == 1 {
            assert(c =~= seq!['.']);
        }
        assert(views(r@) =~= views(old(r)@) + kept_component(c));
    }
}

/// The normal components of a path.
pub fn components(s: &str) -> (r: Vec<String>)
    ensures
        views(r@) == normal_components(s@),
{
    let cs = chars_of(s);
    let n = cs.len();
    let mut r: Vec<String> = Vec::new();
    let mut start: usize = 0;
    let mut i: usize = 0;
    assert(s@.skip(0) =~= s@);
    assert(s@.subrange(0, 0) =~= Seq::<char>::empty());
    assert(views(r@) =~= Seq::<Seq<char>>::empty());
    while i < n
        invariant
            cs@ == s@,
            n == s@.len(),
            start <= i <= n,
            views(r@) + components_from(s@.skip(i as int), s@.subrange(start as int, i as int))
                == normal_components(s@),
        decreases n - i,
    {
        let ghost rest = s@.skip(i as int);
        let ghost cur = s@.subrange(start as int, i as int);
        assert(rest.drop_first() =~= s@.skip(i + 1));
        assert(rest[0] == cs@[i as int]);
        if cs[i] == '/' {
            let ghost before = views(r@);
            push_component(&mut r, s, &cs, start, i);
            start = i + 1;
            assert(s@.subrange(start as int, i + 1) =~= Seq::<char>::empty());
            assert(before + (kept_component(cur) + components_from(s@.skip(i + 1), seq![]))
                =~= views(r@) + components_from(s@.skip(i + 1), seq![]));
        } else {
            assert(cur.push(rest[0]) =~= s@.subrange(start as int, i + 1));
        }
        i = i + 1;
    }
    assert(s@.skip(n as int) =~= Seq::<char>::empty());
    let ghost before = views(r@);
    push_component(&mut r, s, &cs, start, n);
    r
}


/// A component that names an entry below its directory: not empty, not `.`,
/// not `..`, and without a separator.
pub open spec fn is_normal_component(c: Seq<char>) -> bool {
    &&& c.len() > 0
    &&& c != seq!['.']
    &&& c != seq!['.', '.']
    &&& forall|k: int| 0 <= k < c.len() ==> c[k] != '/'
}

/// Reading `s` from index `i`, with the current component started at `start`,
/// yields only components that are non-empty, not `.`, free of separators,
/// and that are `..` only where `s` has a `..` component.
proof fn lemma_components_from_normal(s: Seq<char>, start: int, i: int)
    requires
        0 <= start <= i <= s.len(),
        start == 0 || s[start - 1] == '/',
        forall|k: int| start <= k < i ==> s[k] != '/',
    ensures
        forall|c: Seq<char>|
            #![trigger components_from(s.skip(i), s.subrange(start, i)).contains(c)]
            components_from(s.skip(i), s.subrange(start, i)).contains(c) ==> {
                &&& c.len() > 0
                &&& c != seq!['.']
                &&& forall|k: int| 0 <= k < c.len() ==> c[k] != '/'
                &&& (c == seq!['.', '.'] ==> has_parent_dir_component(s))
            },
    decreases s.len() - i,
{
    let rest = s.skip(i);
    let cur = s.subrange(start, i);
    assert forall|c: Seq<char>| #[trigger] kept_component(cur).contains(c) implies {
        &&& c.len() > 0
        &&& c != seq!['.']
        &&& forall|k: int| 0 <= k < c.len() ==> c[k] != '/'
        &&& ((i == s.len() || s[i] == '/') && c == seq!['.', '.'] ==> has_parent_dir_component(s))
    } by {
        assert(kept_component(cur) =~= seq![cur]);
        assert(c == cur);
        if (i == s.len() || s[i] == '/') && c == seq!['.', '.'] {
            assert(i - start == 2);
            assert(s[start] == cur[0]);
            assert(s[start + 1] == cur[1]);
            assert(parent_dir_at(s, start));
        }
    }
    if i == s.len() {
        assert(rest.len() == 0);
        assert(components_from(rest, cur) == kept_component(cur));
    } else {
        assert(rest[0] == s[i]);
        assert(rest.drop_first() =~= s.skip(i + 1));
        if s[i] == '/' {
            assert(s.subrange(i + 1, i + 1) =~= Seq::<char>::empty());
            lemma_components_from_normal(s, i + 1, i + 1);
            let tail = components_from(s.skip(i + 1), s.subrange(i + 1, i + 1));
            assert(components_from(rest, cur) == kept_component(cur) + tail);
            assert forall|c: Seq<char>|
                #[trigger] components_from(rest, cur).contains(c) implies {
                &&& c.len() > 0
                &&& c != seq!['.']
                &&& forall|k: int| 0 <= k < c.len() ==> c[k] != '/'
                &&& (c == seq!['.', '.'] ==> has_parent_dir_component(s))
            } by {
                let j = choose|j: int| 0 <= j < components_from(rest, cur).len()
                    && components_from(rest, cur)[j] == c;
                if j < kept_component(cur).len() {
                    assert(kept_component(cur).contains(c));
                } else {
                    assert(tail[j - kept_component(cur).len()] == c);
                    assert(tail.contains(c));
                }
            }
        } else {
            assert(cur.push(s[i]) =~= s.subrange(start, i + 1));
            lemma_components_from_normal(s, start, i + 1);
            assert(components_from(rest, cur) == components_from(
                s.skip(i + 1),
                s.subrange(start, i + 1),
            ));
        }
    }
}

/// Every normal component of a path is non-empty, not `.`, free of
/// separators, and, when the path has no `..` component, not `..` either.
pub proof fn lemma_normal_components_are_normal(s: Seq<char>)
    ensures
        (forall|c: Seq<char>| #[trigger]
            normal_components(s).contains(c) ==> (c.len() > 0 && c != seq!['.'] && (forall|k: int|
                0 <= k < c.len() ==> c[k] != '/'))),
        (!has_parent_dir_component(s) ==> (forall|c: Seq<char>| #[trigger]
            normal_components(s).contains(c) ==> is_normal_component(c))),
{
    assert(s.skip(0) =~= s);
    assert(s.subrange(0, 0) =~= Seq::<char>::empty());
    lemma_components_from_normal(s, 0, 0);
}

/// The path that pushing `p` onto `base` gives: an absolute `p` replaces
/// `base`; otherwise `p` is appended, after a separator when `base` is
/// non-empty and does not already end with one.
pub open spec fn pushed_path(base: Seq<char>, p: Seq<char>) -> Seq<char> {
    if is_absolute_path(p) {
        p
    } else if base.len() > 0 && base.last() != '/' {
        base + seq!['/'] + p
    } else {
        base + p
    }
}

/// Pushes `p` onto `base`.
pub fn push_path(base: &str, p: &str) -> (r: String)
    ensures
        r@ == pushed_path(base@, p@),
{
    if is_absolute(p) {
        return String::from_str(p);
    }
    let mut r = String::from_str(base);
    let n = base.unicode_len();
    if n > 0 && base.get_char(n - 1) != '/' {
        let sep = "/";
        proof {
            reveal_strlit("/");
        }
        r.append(sep);
    }
    r.append(p);
    r
}

/// Components joined by single separators (`a/b/c`).
pub open spec fn join_with_slash(segs: Seq<Seq<char>>) -> Seq<char>
    decreases segs.len(),
{
    if segs.len() == 0 {
        seq![]
    } else if segs.len() == 1 {
        segs[0]
    } else {
        join_with_slash(segs.drop_last()) + seq!['/'] + segs.last()
    }
}

/// The absolute path whose normal components are `segs` (`/a/b/c`; `/` for none).
pub open spec fn absolute_display(segs: Seq<Seq<char>>) -> Seq<char> {
    seq!['/'] + join_with_slash(segs)
}

/// Joins the first `k` components with single separators.
pub fn join_first_components(segs: &[String], k: usize) -> (r: String)
    requires
        k <= segs@.len(),
    ensures
        r@ == join_with_slash(views(segs@).take(k as int)),
{
    let mut r = String::new();
    let mut i: usize = 0;
    let sep = "/";
    proof {
        reveal_strlit("/");
    }
    assert(views(segs@).take(0) =~= Seq::<Seq<char>>::empty());
    while i < k
        invariant
            k <= segs@.len(),
            i <= k,
            sep@ == seq!['/'],
            r@ == join_with_slash(views(segs@).take(i as int)),
        decreases k - i,
    {
        let ghost prefix = views(segs@).take(i as int);
        if i > 0 {
            r.append(sep);
        }
        r.append(segs[i].as_str());
        assert(views(segs@).take(i + 1).drop_last() =~= prefix);
        assert(views(segs@).take(i + 1).last() == segs@[i as int]@);
        if i == 0 {
            assert(views(segs@).take(1) =~= seq![segs@[0]@]);
        }
        i = i + 1;
    }
    r
}

/// Joins components with single separators.
pub fn join_components(segs: &[String]) -> (r: String)
    ensures
        r@ == join_with_slash(views(segs@)),
{
    let r = join_first_components(segs, segs.len());
    assert(views(segs@).take(segs@.len() as int) =~= views(segs@));
    r
}

/// The absolute path of the given components, used as the key of a file.
pub fn path_key(segs: &[String]) -> (r: String)
    ensures
        r@ == absolute_display(views(segs@)),
{
    let root = "/";
    proof {
        reveal_strlit("/");
    }
    let mut r = String::from_str(root);
    let rest = join_components(segs);
    r.append(rest.as_str());
    r
}

/// `root` is a component-wise prefix of `p`.
pub open spec fn is_component_prefix(root: Seq<Seq<char>>, p: Seq<Seq<char>>) -> bool {
    root.len() <= p.len() && p.take(root.len() as int) == root
}

/// Whether the path `p` starts with the path `root`, compared component by component.
pub fn starts_with_components(p: &[String], root: &[String]) -> (r: bool)
    ensures
        r == is_component_prefix(views(root@), views(p@)),
{
    let n = root.len();
    if n > p.len() {
        return false;
    }
    let mut i: usize = 0;
    while i < n
        invariant
            n == root@.len(),
            n <= p@.len(),
            i <= n,
            forall|j: int| 0 <= j < i ==> root@[j]@ == p@[j]@,
        decreases n - i,
    {
        if p[i] != root[i] {
            assert(views(p@).take(n as int)[i as int] != views(root@)[i as int]);
            return false;
        }
        i = i + 1;
    }
    assert(views(p@).take(n as int) =~= views(root@));
    true
}

/// The components of `p` after those of `root`.
pub fn strip_components(p: &[String], root: &[String]) -> (r: Vec<String>)
    requires
        is_component_prefix(views(root@), views(p@)),
    ensures
        views(r@) == views(p@).skip(root@.len() as int),
{
    let mut r: Vec<String> = Vec::new();
    let n = p.len();
    let mut i: usize = root.len();
    assert(views(p@).skip(root@.len() as int).take(0) =~= views(r@));
    while i < n
        invariant
            n == p@.len(),
            root@.len() <= i <= n,
            views(r@) == views(p@).skip(root@.len() as int).take(i - root@.len()),
        decreases n - i,
    {
        let ghost old_r = views(r@);
        let c = p[i].clone();
        assert(c@ == p@[i as int]@);
        r.push(c);
        assert(views(r@) =~= old_r.push(p@[i as int]@));
        assert(views(r@) =~= views(p@).skip(root@.len() as int).take(i + 1 - root@.len()));
        i = i + 1;
    }
    assert(views(p@).skip(root@.len() as int).take(n - root@.len()) =~= views(p@).skip(
        root@.len() as int,
    ));
    r
}

/// Joining components: nothing gives the empty text, one component gives
/// itself, and each further component is added after a single `/`.
pub proof fn lemma_join_with_slash_appends(segs: Seq<Seq<char>>, last: Seq<char>)
    ensures
        join_with_slash(Seq::<Seq<char>>::empty()) == Seq::<char>::empty(),
        join_with_slash(seq![last]) == last,
        segs.len() > 0 ==> join_with_slash(segs.push(last)) == join_with_slash(segs) + seq!['/']
            + last,
{
    assert(segs.push(last).drop_last() =~= segs);
}

/// A path holds a `..` component exactly when two dots stand between
/// separators (or the start or end of the path) with nothing else there.
pub proof fn lemma_parent_dir_component_is_two_dots(s: Seq<char>)
    ensures
        has_parent_dir_component(s) <==> exists|i: int|
            0 <= i && i + 2 <= s.len() && #[trigger] s[i] == '.' && s[i + 1] == '.' && (i == 0 || s[i
                - 1] == '/') && (i + 2 == s.len() || s[i + 2] == '/'),
{
    if has_parent_dir_component(s) {
        let i = choose|i: int| parent_dir_at(s, i);
        assert(s[i] == '.');
    }
    if exists|i: int|
        0 <= i && i + 2 <= s.len() && #[trigger] s[i] == '.' && s[i + 1] == '.' && (i == 0 || s[i
            - 1] == '/') && (i + 2 == s.len() || s[i + 2] == '/') {
        let i = choose|i: int|
            0 <= i && i + 2 <= s.len() && #[trigger] s[i] == '.' && s[i + 1] == '.' && (i == 0 || s[i
                - 1] == '/') && (i + 2 == s.len() || s[i + 2] == '/');
        assert(parent_dir_at(s, i));
    }
}

/// Pushing a path: an absolute one (starting with `/`) replaces the base;
/// a relative one is appended after a `/`, which is left out when the base is
/// empty or already ends with `/`.
pub proof fn lemma_pushed_path_exactly(base: Seq<char>, p: Seq<char>)
    ensures
        p.len() > 0 && p[0] == '/' ==> pushed_path(base, p) == p,
        !(p.len() > 0 && p[0] == '/') && base.len() > 0 && base[base.len() - 1] != '/' ==> pushed_path(
            base,
            p,
        ) == base + seq!['/'] + p,
        !(p.len() > 0 && p[0] == '/') && (base.len() == 0 || base[base.len() - 1] == '/') ==> pushed_path(
            base,
            p,
        ) == base + p,
{
}

/// The absolute path of components is `/` followed by the components joined by `/`.
pub proof fn lemma_absolute_display_exactly(segs: Seq<Seq<char>>)
    ensures
        absolute_display(segs) == seq!['/'] + join_with_slash(segs),
        absolute_display(Seq::<Seq<char>>::empty()) == seq!['/'],
{
}

/// One path is a prefix of another, component by component, exactly when it
/// is no longer and every one of its components equals the other's at the
/// same position.
pub proof fn lemma_component_prefix_exactly(root: Seq<Seq<char>>, p: Seq<Seq<char>>)
    ensures
        is_component_prefix(root, p) <==> (root.len() <= p.len() && forall|i: int|
            0 <= i < root.len() ==> #[trigger] root[i] == p[i]),
{
    if root.len() <= p.len() && forall|i: int| 0 <= i < root.len() ==> #[trigger] root[i] == p[i] {
        assert(p.take(root.len() as int) =~= root);
    }
    if is_component_prefix(root, p) {
        assert forall|i: int| 0 <= i < root.len() implies #[trigger] root[i] == p[i] by {
            assert(p.take(root.len() as int)[i] == p[i]);
        }
    }
}

/// Reading on after a separator: the components of `rest`, a `/` and `q`,
/// read with `cur` pending, are those of `rest` with `cur` pending, then
/// those of `q`.
proof fn lemma_components_from_split(rest: Seq<char>, cur: Seq<char>, q: Seq<char>)
    ensures
        components_from(rest + seq!['/'] + q, cur) == components_from(rest, cur) + components_from(
            q,
            seq![],
        ),
    decreases rest.len(),
{
    let whole = rest + seq!['/'] + q;
    if rest.len() == 0 {
        assert(whole[0] == '/');
        assert(whole.drop_first() =~= q);
    } else {
        assert(whole[0] == rest[0]);
        assert(whole.drop_first() =~= rest.drop_first() + seq!['/'] + q);
        if rest[0] == '/' {
            lemma_components_from_split(rest.drop_first(), seq![], q);
            assert(components_from(whole, cur) =~= kept_component(cur) + (components_from(
                rest.drop_first(),
                seq![],
            ) + components_from(q, seq![])));
        } else {
            lemma_components_from_split(rest.drop_first(), cur.push(rest[0]), q);
        }
    }
}

/// Reading a piece without separators gives it as the pending component.
proof fn lemma_components_of_piece(piece: Seq<char>, cur: Seq<char>)
    requires
        forall|i: int| 0 <= i < piece.len() ==> piece[i] != '/',
    ensures
        components_from(piece, cur) == kept_component(cur + piece),
    decreases piece.len(),
{
    if piece.len() == 0 {
        assert(cur + piece =~= cur);
    } else {
        lemma_components_of_piece(piece.drop_first(), cur.push(piece[0]));
        assert(cur.push(piece[0]) + piece.drop_first() =~= cur + piece);
    }
}

/// The normal components of a path: a piece without separators is its own
/// only component unless it is empty or `.`, which give none; and a path split
/// at a `/` has the components of the part before, then those of the part after.
pub proof fn lemma_normal_components_exactly(p: Seq<char>, q: Seq<char>)
    ensures
        (forall|i: int| 0 <= i < p.len() ==> p[i] != '/') ==> normal_components(p) == (if p.len()
            == 0 || p == seq!['.'] {
            Seq::<Seq<char>>::empty()
        } else {
            seq![p]
        }),
        normal_components(p + seq!['/'] + q) == normal_components(p) + normal_components(q),
{
    if forall|i: int| 0 <= i < p.len() ==> p[i] != '/' {
        lemma_components_of_piece(p, seq![]);
        assert(Seq::<char>::empty() + p =~= p);
    }
    lemma_components_from_split(p, seq![], q);
}

} // verus!
