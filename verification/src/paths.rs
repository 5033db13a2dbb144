//! Paths as text: joining, components, and the questions the installer
//! asks of them. Paths use `/` as separator.

use vstd::prelude::*;
use crate::text::{
    buffers, chars_of, last_char_pos, last_position_of, push_all, same, slice_of, split,
    split_on, string_of,
};

verus! {

/// `base` extended by `name`: an absolute `name` replaces `base`, and a
/// separator is put between the two where `base` does not end in one.
pub open spec fn joined(base: Seq<char>, name: Seq<char>) -> Seq<char> {
    if name.len() > 0 && name[0] == '/' {
        name
    } else if base.len() == 0 || base.last() == '/' {
        base + name
    } else {
        base + seq!['/'] + name
    }
}

/// `base` extended by `name`.
pub fn join(base: &str, name: &str) -> (out: String)
    ensures
        out@ == joined(base@, name@),
{
    let b = chars_of(base);
    let n = chars_of(name);
    if n.len() > 0 && n[0] == '/' {
        return string_of(&n);
    }
    let mut out: Vec<char> = Vec::new();
    push_all(&mut out, &b);
    if b.len() > 0 && b[b.len() - 1] != '/' {
        out.push('/');
    }
    push_all(&mut out, &n);
    assert(out@ =~= joined(base@, name@));
    string_of(&out)
}

/// `base` extended by two names in turn.
pub fn join3(base: &str, first: &str, second: &str) -> (out: String)
    ensures
        out@ == joined(joined(base@, first@), second@),
{
    let a = join(base, first);
    join(a.as_str(), second)
}

/// A piece of a path counts as a component unless it is empty or `.`.
pub open spec fn is_component(piece: Seq<char>) -> bool {
    piece.len() > 0 && piece != seq!['.']
}

/// The pieces that count as components, in order.
pub open spec fn components_of(pieces: Seq<Seq<char>>) -> Seq<Seq<char>>
    decreases pieces.len(),
{
    if pieces.len() == 0 {
        Seq::empty()
    } else if is_component(pieces.last()) {
        components_of(pieces.drop_last()).push(pieces.last())
    } else {
        components_of(pieces.drop_last())
    }
}

/// The components of a path: what stands between separators, empty pieces
/// and `.` left out.
pub open spec fn components(path: Seq<char>) -> Seq<Seq<char>> {
    components_of(split_on(path, '/'))
}

/// The path begins at the root.
pub open spec fn is_absolute(path: Seq<char>) -> bool {
    path.len() > 0 && path[0] == '/'
}

/// `path` lies at or below `base`: both are absolute or both are not, and
/// the components of `base` are the first components of `path`.
pub open spec fn starts_with_path(path: Seq<char>, base: Seq<char>) -> bool {
    is_absolute(path) == is_absolute(base) && components(base).is_prefix_of(components(path))
}

/// The components of a path.
pub fn path_components(path: &str) -> (out: Vec<Vec<char>>)
    ensures
        buffers(out@) == components(path@),
{
    let chars = chars_of(path);
    let pieces = split(&chars, '/');
    let mut out: Vec<Vec<char>> = Vec::new();
    let mut i: usize = 0;
    assert(buffers(pieces@).take(0) =~= Seq::empty());
    assert(buffers(out@) =~= Seq::empty());
    while i < pieces.len()
        invariant
            i <= pieces.len(),
            buffers(out@) == components_of(buffers(pieces@).take(i as int)),
        decreases pieces.len() - i,
    {
        let piece = &pieces[i];
        proof {
            let next = buffers(pieces@).take(i + 1);
            assert(next.drop_last() =~= buffers(pieces@).take(i as int));
            assert(next.last() == piece@);
        }
        let is_dot = piece.len() == 1 && piece[0] == '.';
        proof {
            if is_dot {
                assert(piece@ =~= seq!['.']);
            } else if piece.len() == 1 {
                assert(piece@[0] != seq!['.'][0]);
            }
        }
        if piece.len() > 0 && !is_dot {
            let ghost before = buffers(out@);
            let copy = slice_of(piece, 0, piece.len());
            assert(copy@ =~= piece@);
            out.push(copy);
            assert(buffers(out@) =~= before.push(piece@));
        }
        i += 1;
    }
    assert(buffers(pieces@).take(pieces.len() as int) =~= buffers(pieces@));
    out
}

/// Whether `path` lies at or below `base`, component by component.
pub fn path_starts_with(path: &str, base: &str) -> (r: bool)
    ensures
        r == starts_with_path(path@, base@),
{
    let p = chars_of(path);
    let b = chars_of(base);
    let p_abs = p.len() > 0 && p[0] == '/';
    let b_abs = b.len() > 0 && b[0] == '/';
    if p_abs != b_abs {
        return false;
    }
    let pc = path_components(path);
    let bc = path_components(base);
    if bc.len() > pc.len() {
        return false;
    }
    let mut i: usize = 0;
    while i < bc.len()
        invariant
            i <= bc.len(),
            bc.len() <= pc.len(),
            buffers(pc@) == components(path@),
            buffers(bc@) == components(base@),
            is_absolute(path@) == is_absolute(base@),
            forall|j: int| 0 <= j < i ==> buffers(bc@)[j] == buffers(pc@)[j],
        decreases bc.len() - i,
    {
        if !same(&bc[i], &pc[i]) {
            assert(buffers(bc@)[i as int] != buffers(pc@)[i as int]);
            assert(buffers(pc@).subrange(0, buffers(bc@).len() as int)[i as int] == buffers(
                pc@,
            )[i as int]);
            return false;
        }
        i += 1;
    }
    assert(buffers(pc@).subrange(0, buffers(bc@).len() as int) =~= buffers(bc@));
    true
}

/// The last component of a path; `None` where it has none.
pub open spec fn last_component(path: Seq<char>) -> Option<Seq<char>> {
    let c = components(path);
    if c.len() > 0 {
        Some(c.last())
    } else {
        None
    }
}

/// The last component of a path.
pub fn file_name(path: &str) -> (r: Option<String>)
    ensures
        match r {
            Some(n) => last_component(path@) == Some(n@),
            None => last_component(path@) is None,
        },
{
    let c = path_components(path);
    if c.len() > 0 {
        assert(buffers(c@).last() == c@[c.len() - 1]@);
        Some(string_of(&c[c.len() - 1]))
    } else {
        None
    }
}

/// Where the extension of a file name begins: behind its last dot, unless
/// that dot is the first character.
pub open spec fn extension_start(name: Seq<char>) -> Option<int> {
    match last_char_pos(name, '.', name.len() as int) {
        Some(i) => if i > 0 {
            Some(i + 1)
        } else {
            None
        },
        None => None,
    }
}

/// A file name without its extension.
pub open spec fn stem_of(name: Seq<char>) -> Seq<char> {
    match extension_start(name) {
        Some(i) => name.take(i - 1),
        None => name,
    }
}

/// The extension of a file name, without the dot.
pub open spec fn extension_of(name: Seq<char>) -> Option<Seq<char>> {
    match extension_start(name) {
        Some(i) => Some(name.skip(i)),
        None => None,
    }
}

/// A file name without its extension.
pub fn file_stem(name: &str) -> (out: String)
    ensures
        out@ == stem_of(name@),
{
    let chars = chars_of(name);
    match last_position_of(&chars, '.') {
        Some(i) => {
            if i > 0 {
                let stem = slice_of(&chars, 0, i);
                assert(stem@ =~= chars@.take(i as int));
                string_of(&stem)
            } else {
                string_of(&chars)
            }
        },
        None => string_of(&chars),
    }
}

/// The extension of a file name, without the dot.
pub fn extension(name: &str) -> (r: Option<String>)
    ensures
        match r {
            Some(e) => extension_of(name@) == Some(e@),
            None => extension_of(name@) is None,
        },
{
    let chars = chars_of(name);
    match last_position_of(&chars, '.') {
        Some(i) => {
            if i > 0 {
                let ext = slice_of(&chars, i + 1, chars.len());
                assert(ext@ =~= chars@.skip(i + 1));
                Some(string_of(&ext))
            } else {
                None
            }
        },
        None => None,
    }
}

/// The path without its last piece: what precedes the last separator.
/// `None` where the path holds no separator.
pub open spec fn parent_of(path: Seq<char>) -> Option<Seq<char>> {
    match last_char_pos(path, '/', path.len() as int) {
        Some(i) => if i == 0 {
            Some(seq!['/'])
        } else {
            Some(path.take(i))
        },
        None => None,
    }
}

/// The directory that holds `path`, for a path without trailing separator.
pub fn parent(path: &str) -> (r: Option<String>)
    ensures
        match r {
            Some(p) => parent_of(path@) == Some(p@),
            None => parent_of(path@) is None,
        },
{
    let chars = chars_of(path);
    match last_position_of(&chars, '/') {
        Some(i) => {
            if i == 0 {
                let mut root: Vec<char> = Vec::new();
                root.push('/');
                assert(root@ =~= seq!['/']);
                Some(string_of(&root))
            } else {
                let head = slice_of(&chars, 0, i);
                assert(head@ =~= chars@.take(i as int));
                Some(string_of(&head))
            }
        },
        None => None,
    }
}


/// `name` can be the name of a directory entry: not empty, without
/// separator, and neither `.` nor `..`.
pub open spec fn is_plain_name(name: Seq<char>) -> bool {
    &&& name.len() > 0
    &&& forall|i: int| 0 <= i < name.len() ==> #[trigger] name[i] != '/'
    &&& name != seq!['.']
    &&& name != seq!['.', '.']
}

/// Whether `name` can be the name of a directory entry.
pub fn plain_name(name: &str) -> (r: bool)
    ensures
        r == is_plain_name(name@),
{
    let chars = chars_of(name);
    if chars.len() == 0 {
        return false;
    }
    let mut i: usize = 0;
    while i < chars.len()
        invariant
            i <= chars.len(),
            chars@ == name@,
            forall|j: int| 0 <= j < i ==> #[trigger] chars@[j] != '/',
        decreases chars.len() - i,
    {
        if chars[i] == '/' {
            return false;
        }
        i += 1;
    }
    if chars.len() == 1 && chars[0] == '.' {
        assert(chars@ =~= seq!['.']);
        return false;
    }
    if chars.len() == 2 && chars[0] == '.' && chars[1] == '.' {
        assert(chars@ =~= seq!['.', '.']);
        return false;
    }
    proof {
        if chars@ == seq!['.'] {
            assert(chars@.len() == 1 && chars@[0] == '.');
        }
        if chars@ == seq!['.', '.'] {
            assert(chars@.len() == 2 && chars@[0] == '.' && chars@[1] == '.');
        }
    }
    true
}

/// Splitting a text that ends in a separator and a piece without separator
/// yields the pieces of what precedes, and that piece.
pub proof fn lemma_split_append(a: Seq<char>, n: Seq<char>)
    requires
        forall|i: int| 0 <= i < n.len() ==> #[trigger] n[i] != '/',
    ensures
        split_on(a + seq!['/'] + n, '/') == split_on(a, '/').push(n),
    decreases a.len(),
{
    let whole = a + seq!['/'] + n;
    let i = crate::text::char_pos(a, '/', 0);
    if 0 <= i < a.len() {
        crate::text::lemma_char_pos_hit(a, '/', 0);
        assert forall|j: int| 0 <= j < i implies whole[j] != '/' by {
            crate::text::lemma_char_pos_upto(a, '/', 0, j);
        }
        assert(whole[i] == a[i]);
        crate::text::lemma_char_pos_is(whole, '/', 0, i);
        assert(whole.take(i) =~= a.take(i));
        assert(whole.skip(i + 1) =~= a.skip(i + 1) + seq!['/'] + n);
        lemma_split_append(a.skip(i + 1), n);
        assert(seq![a.take(i)] + split_on(a.skip(i + 1), '/').push(n) =~= (seq![a.take(i)]
            + split_on(a.skip(i + 1), '/')).push(n));
    } else {
        assert(i == a.len()) by {
            lemma_char_pos_range(a, '/', 0);
        }
        assert forall|j: int| 0 <= j < a.len() implies whole[j] != '/' by {
            crate::text::lemma_char_pos_upto(a, '/', 0, j);
        }
        assert(whole[a.len() as int] == '/');
        crate::text::lemma_char_pos_is(whole, '/', 0, a.len() as int);
        assert(whole.take(a.len() as int) =~= a);
        assert(whole.skip(a.len() as int + 1) =~= n);
        crate::text::lemma_char_pos_is(n, '/', 0, n.len() as int);
        assert(split_on(n, '/') == seq![n]);
        assert(seq![a] + seq![n] =~= seq![a].push(n));
    }
}

/// `char_pos` lies between its start and the length.
pub proof fn lemma_char_pos_range(s: Seq<char>, c: char, from: int)
    requires
        0 <= from <= s.len(),
    ensures
        from <= crate::text::char_pos(s, c, from) <= s.len(),
    decreases s.len() - from,
{
    if from < s.len() && s[from] != c {
        lemma_char_pos_range(s, c, from + 1);
    }
}

/// Joining a plain name to a path adds the name as its last component, and
/// does not change whether the path is absolute.
pub proof fn lemma_components_joined(base: Seq<char>, name: Seq<char>)
    requires
        is_plain_name(name),
    ensures
        components(joined(base, name)) == components(base).push(name),
        is_absolute(joined(base, name)) == is_absolute(base),
        starts_with_path(joined(base, name), base),
{
    let empty = Seq::<char>::empty();
    if base.len() == 0 {
        assert(joined(base, name) =~= name);
        crate::text::lemma_char_pos_is(name, '/', 0, name.len() as int);
        crate::text::lemma_char_pos_is(base, '/', 0, 0);
        assert(split_on(name, '/') == seq![name]);
        assert(split_on(base, '/') == seq![base]);
        assert(seq![name].drop_last() =~= Seq::<Seq<char>>::empty());
        assert(seq![base].drop_last() =~= Seq::<Seq<char>>::empty());
        let none = Seq::<Seq<char>>::empty();
        assert(components_of(none) =~= none);
        assert(seq![name].last() == name);
        assert(seq![base].last() == base);
        assert(components_of(seq![name]) =~= none.push(name));
        assert(components_of(seq![base]) =~= none);
    } else if base.last() == '/' {
        let a = base.drop_last();
        assert(base =~= a + seq!['/'] + empty);
        assert(joined(base, name) =~= a + seq!['/'] + name);
        lemma_split_append(a, name);
        lemma_split_append(a, empty);
        assert(split_on(a, '/').push(name).drop_last() =~= split_on(a, '/'));
        assert(split_on(a, '/').push(empty).drop_last() =~= split_on(a, '/'));
    } else {
        lemma_split_append(base, name);
        assert(split_on(base, '/').push(name).drop_last() =~= split_on(base, '/'));
    }
    assert(components(base).push(name).subrange(0, components(base).len() as int) =~= components(
        base,
    ));
}

/// Lying below a path carries over to what lies further below.
pub proof fn lemma_starts_with_path_trans(a: Seq<char>, b: Seq<char>, c: Seq<char>)
    requires
        starts_with_path(a, b),
        starts_with_path(b, c),
    ensures
        starts_with_path(a, c),
{
    let ca = components(a);
    let cb = components(b);
    let cc = components(c);
    assert(ca.subrange(0, cc.len() as int) =~= cb.subrange(0, cc.len() as int));
}

} // verus!
