//! Rewriting of the path placeholders that bottles carry.
//!
//! A bottle is built for an unknown prefix: where a path belongs, its files
//! hold one of two tokens, `@@HOMEBREW_PREFIX@@` and `@@HOMEBREW_CELLAR@@`.
//! Relocation replaces each token by the real path, padded with NUL bytes
//! where the path is shorter, so that nothing else in the file moves.

use vstd::prelude::*;
use vstd::string::StringSliceAdditionalSpecFns;
use crate::text::{
    contains, lemma_find_from, lemma_find_from_is, lemma_find_from_none, matches_at,
};

verus! {

/// Length of either token.
pub const TOKEN_LEN: usize = 19;

/// The byte `@`, with which both tokens begin and end.
pub const MARK: u8 = 64;

/// The bytes of `@@HOMEBREW_PREFIX@@`.
pub open spec fn prefix_token() -> Seq<u8> {
    seq![64u8, 64, 72, 79, 77, 69, 66, 82, 69, 87, 95, 80, 82, 69, 70, 73, 88, 64, 64]
}

/// The bytes of `@@HOMEBREW_CELLAR@@`.
pub open spec fn cellar_token() -> Seq<u8> {
    seq![64u8, 64, 72, 79, 77, 69, 66, 82, 69, 87, 95, 67, 69, 76, 76, 65, 82, 64, 64]
}

/// The bytes of `/Cellar`.
pub open spec fn cellar_suffix() -> Seq<u8> {
    seq![47u8, 67, 101, 108, 108, 97, 114]
}

/// The first four bytes of an ELF file.
pub open spec fn elf_magic() -> Seq<u8> {
    seq![127u8, 69, 76, 70]
}

/// `content` is an ELF file.
pub open spec fn is_elf(content: Seq<u8>) -> bool {
    content.len() >= 4 && content.take(4) == elf_magic()
}

/// `rep`, padded with NUL bytes to `width` where it is shorter.
pub open spec fn filled(rep: Seq<u8>, width: int) -> Seq<u8> {
    if rep.len() < width {
        rep + Seq::new((width - rep.len()) as nat, |i: int| 0u8)
    } else {
        rep
    }
}

/// `content` with every occurrence of `token` replaced by `with`, scanning
/// from the left and resuming behind each occurrence.
pub open spec fn rewritten<T>(content: Seq<T>, token: Seq<T>, with: Seq<T>) -> Seq<T>
    decreases content.len(),
{
    if token.len() == 0 || content.len() < token.len() {
        content
    } else if content.take(token.len() as int) == token {
        with + rewritten(content.skip(token.len() as int), token, with)
    } else {
        seq![content[0]] + rewritten(content.skip(1), token, with)
    }
}

/// What replaces the prefix token: the prefix, padded to the token's length.
pub open spec fn prefix_fill(prefix: Seq<u8>) -> Seq<u8> {
    filled(prefix, TOKEN_LEN as int)
}

/// What replaces the cellar token: `<prefix>/Cellar`, padded to the token's length.
pub open spec fn cellar_fill(prefix: Seq<u8>) -> Seq<u8> {
    filled(prefix + cellar_suffix(), TOKEN_LEN as int)
}

/// `content` after the first pass, which replaces the prefix token.
pub open spec fn prefix_pass(content: Seq<u8>, prefix: Seq<u8>) -> Seq<u8> {
    rewritten(content, prefix_token(), prefix_fill(prefix))
}

/// `content` relocated under `prefix`: first the prefix token is replaced,
/// then the cellar token.
pub open spec fn relocated(content: Seq<u8>, prefix: Seq<u8>) -> Seq<u8> {
    rewritten(prefix_pass(content, prefix), cellar_token(), cellar_fill(prefix))
}

/// Relocation finds a token to replace in `content`.
pub open spec fn touched(content: Seq<u8>, prefix: Seq<u8>) -> bool {
    contains(content, prefix_token()) || contains(prefix_pass(content, prefix), cellar_token())
}

/// No byte of `s` is `m`.
pub open spec fn free_of(s: Seq<u8>, m: u8) -> bool {
    forall|i: int| 0 <= i < s.len() ==> #[trigger] s[i] != m
}

/// `out` holds `width` bytes other than `m` from position `p` on.
pub open spec fn clear_run(out: Seq<u8>, p: int, width: int, m: u8) -> bool {
    0 <= p && p + width <= out.len() && forall|q: int| p <= q < p + width ==> #[trigger] out[q] != m
}

/// Replacing tokens by something of the same length keeps the length.
pub proof fn lemma_rewritten_len<T>(content: Seq<T>, token: Seq<T>, with: Seq<T>)
    requires
        with.len() == token.len(),
    ensures
        rewritten(content, token, with).len() == content.len(),
    decreases content.len(),
{
    if token.len() == 0 || content.len() < token.len() {
    } else if content.take(token.len() as int) == token {
        lemma_rewritten_len(content.skip(token.len() as int), token, with);
    } else {
        lemma_rewritten_len(content.skip(1), token, with);
    }
}

/// Content without the token is left as it is.
pub proof fn lemma_rewritten_without_token<T>(content: Seq<T>, token: Seq<T>, with: Seq<T>)
    requires
        !contains(content, token),
    ensures
        rewritten(content, token, with) == content,
    decreases content.len(),
{
    lemma_find_from(content, token, 0);
    if token.len() == 0 || content.len() < token.len() {
    } else if content.take(token.len() as int) == token {
        assert(content.subrange(0, token.len() as int) == content.take(token.len() as int));
        assert(matches_at(content, token, 0));
    } else {
        let rest = content.skip(1);
        assert forall|j: int| 0 <= j implies !matches_at(rest, token, j) by {
            if matches_at(rest, token, j) {
                assert(rest.subrange(j, j + token.len()) == content.subrange(
                    j + 1,
                    j + 1 + token.len(),
                ));
                assert(matches_at(content, token, j + 1));
            }
        }
        lemma_find_from_none(rest, token, 0);
        lemma_rewritten_without_token(rest, token, with);
        assert(seq![content[0]] + rest == content);
    }
}

/// The first `k` bytes of a rewritten content are those of the content,
/// unless a replacement begins among them.
proof fn lemma_rewritten_head(
    content: Seq<u8>,
    token: Seq<u8>,
    with: Seq<u8>,
    width: int,
    m: u8,
    k: int,
) -> (p: int)
    requires
        free_of(with, m),
        1 <= width <= with.len(),
        0 <= k <= rewritten(content, token, with).len(),
    ensures
        p < 0 ==> k <= content.len() && rewritten(content, token, with).take(k) == content.take(k),
        p >= 0 ==> p < k && clear_run(rewritten(content, token, with), p, width, m),
    decreases content.len(),
{
    let out = rewritten(content, token, with);
    if k == 0 {
        assert(out.take(0) =~= content.take(0));
        -1
    } else if token.len() == 0 || content.len() < token.len() {
        -1
    } else if content.take(token.len() as int) == token {
        assert forall|q: int| 0 <= q < width implies #[trigger] out[q] != m by {
            assert(out[q] == with[q]);
        }
        0
    } else {
        let rest = content.skip(1);
        let tail = rewritten(rest, token, with);
        let p = lemma_rewritten_head(rest, token, with, width, m, k - 1);
        if p < 0 {
            assert(out.take(k) =~= seq![content[0]] + tail.take(k - 1));
            assert(content.take(k) =~= seq![content[0]] + rest.take(k - 1));
            -1
        } else {
            assert forall|q: int| p + 1 <= q < p + 1 + width implies #[trigger] out[q] != m by {
                assert(out[q] == tail[q - 1]);
            }
            p + 1
        }
    }
}

/// A token found in a rewritten content stood in the content already, and
/// is not the token that was replaced.
proof fn lemma_rewritten_occurrence(
    content: Seq<u8>,
    token: Seq<u8>,
    with: Seq<u8>,
    other: Seq<u8>,
    m: u8,
    j: int,
) -> (at: int)
    requires
        free_of(with, m),
        other.len() >= 1,
        other.len() <= with.len(),
        other[0] == m,
        other.last() == m,
        matches_at(rewritten(content, token, with), other, j),
    ensures
        other != token,
        matches_at(content, other, at),
    decreases content.len(),
{
    let out = rewritten(content, token, with);
    let n = other.len() as int;
    assert(out.subrange(j, j + n)[0] == out[j]);
    assert(out.subrange(j, j + n)[n - 1] == out[j + n - 1]);
    if token.len() == 0 || content.len() < token.len() {
        if other == token {
            assert(content.len() >= n);
        }
        j
    } else if content.take(token.len() as int) == token {
        let rest = content.skip(token.len() as int);
        let tail = rewritten(rest, token, with);
        if j < with.len() {
            assert(out[j] == with[j]);
            assert(false);
            0
        } else {
            assert(tail.subrange(j - with.len(), j - with.len() + n) =~= out.subrange(j, j + n));
            let at = lemma_rewritten_occurrence(rest, token, with, other, m, j - with.len());
            assert(content.subrange(at + token.len(), at + token.len() + n) =~= rest.subrange(
                at,
                at + n,
            ));
            at + token.len()
        }
    } else {
        let rest = content.skip(1);
        let tail = rewritten(rest, token, with);
        if j >= 1 {
            assert(tail.subrange(j - 1, j - 1 + n) =~= out.subrange(j, j + n));
            let at = lemma_rewritten_occurrence(rest, token, with, other, m, j - 1);
            assert(content.subrange(at + 1, at + 1 + n) =~= rest.subrange(at, at + n));
            at + 1
        } else {
            let p = lemma_rewritten_head(rest, token, with, n, m, n - 1);
            if p >= 0 {
                assert(clear_run(tail, p, n, m));
                assert(tail[n - 2] != m);
                assert(out[n - 1] == tail[n - 2]);
                assert(false);
            }
            assert(out.subrange(0, n) =~= seq![content[0]] + tail.take(n - 1));
            assert(content.subrange(0, n) =~= seq![content[0]] + rest.take(n - 1));
            if other == token {
                assert(content.take(n) =~= content.subrange(0, n));
            }
            0
        }
    }
}

/// Padding with NUL bytes brings in no `@`.
proof fn lemma_filled_free(rep: Seq<u8>, width: int)
    requires
        free_of(rep, MARK),
    ensures
        free_of(filled(rep, width), MARK),
        filled(rep, width).len() >= width,
        rep.len() <= width ==> filled(rep, width).len() == width,
{
}

/// Relocation under a prefix that fits keeps the length of the content:
/// where `<prefix>/Cellar` is no longer than a token, nothing moves.
pub proof fn lemma_relocated_keeps_length(content: Seq<u8>, prefix: Seq<u8>)
    requires
        prefix.len() + cellar_suffix().len() <= TOKEN_LEN,
    ensures
        relocated(content, prefix).len() == content.len(),
{
    lemma_rewritten_len(content, prefix_token(), prefix_fill(prefix));
    lemma_rewritten_len(prefix_pass(content, prefix), cellar_token(), cellar_fill(prefix));
}

/// Content that holds neither token is left as it is.
pub proof fn lemma_relocated_without_tokens(content: Seq<u8>, prefix: Seq<u8>)
    requires
        !contains(content, prefix_token()),
        !contains(content, cellar_token()),
    ensures
        relocated(content, prefix) == content,
        !touched(content, prefix),
{
    lemma_rewritten_without_token(content, prefix_token(), prefix_fill(prefix));
    lemma_rewritten_without_token(content, cellar_token(), cellar_fill(prefix));
}

/// After relocation under a prefix without `@`, neither token occurs in
/// the content any more.
pub proof fn lemma_relocated_clears_tokens(content: Seq<u8>, prefix: Seq<u8>)
    requires
        free_of(prefix, MARK),
    ensures
        forall|j: int| !matches_at(relocated(content, prefix), prefix_token(), j),
        forall|j: int| !matches_at(relocated(content, prefix), cellar_token(), j),
        !contains(relocated(content, prefix), prefix_token()),
        !contains(relocated(content, prefix), cellar_token()),
{
    let first = prefix_pass(content, prefix);
    let out = relocated(content, prefix);
    let cellar = prefix + cellar_suffix();
    assert(free_of(cellar, MARK)) by {
        assert forall|i: int| 0 <= i < cellar.len() implies #[trigger] cellar[i] != MARK by {
            if i < prefix.len() {
                assert(cellar[i] == prefix[i]);
            } else {
                assert(cellar[i] == cellar_suffix()[i - prefix.len()]);
            }
        }
    }
    lemma_filled_free(prefix, TOKEN_LEN as int);
    lemma_filled_free(cellar, TOKEN_LEN as int);
    assert forall|j: int| !matches_at(out, cellar_token(), j) by {
        if matches_at(out, cellar_token(), j) {
            lemma_rewritten_occurrence(
                first,
                cellar_token(),
                cellar_fill(prefix),
                cellar_token(),
                MARK,
                j,
            );
        }
    }
    assert forall|j: int| !matches_at(out, prefix_token(), j) by {
        if matches_at(out, prefix_token(), j) {
            let at = lemma_rewritten_occurrence(
                first,
                cellar_token(),
                cellar_fill(prefix),
                prefix_token(),
                MARK,
                j,
            );
            lemma_rewritten_occurrence(
                content,
                prefix_token(),
                prefix_fill(prefix),
                prefix_token(),
                MARK,
                at,
            );
        }
    }
    lemma_find_from(out, prefix_token(), 0);
    lemma_find_from(out, cellar_token(), 0);
}

/// What relocation does to one file.
#[derive(Debug)]
pub enum Relocation {
    /// An ELF file: its interpreter and run path are patched by other means.
    Elf,
    /// The file holds no token and stays as it is.
    Unchanged,
    /// The new content of the file.
    Rewritten(Vec<u8>),
}

/// The bytes of `@@HOMEBREW_PREFIX@@`.
pub fn prefix_token_bytes() -> (out: Vec<u8>)
    ensures
        out@ == prefix_token(),
{
    let out = vec![64u8, 64, 72, 79, 77, 69, 66, 82, 69, 87, 95, 80, 82, 69, 70, 73, 88, 64, 64];
    assert(out@ =~= prefix_token());
    out
}

/// The bytes of `@@HOMEBREW_CELLAR@@`.
pub fn cellar_token_bytes() -> (out: Vec<u8>)
    ensures
        out@ == cellar_token(),
{
    let out = vec![64u8, 64, 72, 79, 77, 69, 66, 82, 69, 87, 95, 67, 69, 76, 76, 65, 82, 64, 64];
    assert(out@ =~= cellar_token());
    out
}

/// Whether `content` begins with the ELF magic.
pub fn is_elf_file(content: &[u8]) -> (r: bool)
    ensures
        r == is_elf(content@),
{
    if content.len() < 4 {
        return false;
    }
    let r = content[0] == 127 && content[1] == 69 && content[2] == 76 && content[3] == 70;
    proof {
        if r {
            assert(content@.take(4) =~= elf_magic());
        } else {
            let t = content@.take(4);
            assert(t[0] == content@[0] && t[1] == content@[1] && t[2] == content@[2] && t[3]
                == content@[3]);
        }
    }
    r
}

/// Whether no byte of `s` is `@`.
pub fn has_no_mark(s: &[u8]) -> (r: bool)
    ensures
        r == free_of(s@, MARK),
{
    let mut i: usize = 0;
    while i < s.len()
        invariant
            i <= s.len(),
            forall|j: int| 0 <= j < i ==> #[trigger] s@[j] != MARK,
        decreases s.len() - i,
    {
        if s[i] == MARK {
            return false;
        }
        i += 1;
    }
    true
}

/// `rep`, padded with NUL bytes to `width` where it is shorter.
pub fn fill(rep: &[u8], width: usize) -> (out: Vec<u8>)
    ensures
        out@ == filled(rep@, width as int),
{
    let mut out: Vec<u8> = Vec::new();
    let mut i: usize = 0;
    while i < rep.len()
        invariant
            i <= rep.len(),
            out@ == rep@.take(i as int),
        decreases rep.len() - i,
    {
        out.push(rep[i]);
        i += 1;
    }
    assert(rep@.take(rep.len() as int) == rep@);
    while i < width
        invariant
            rep.len() <= i,
            i == rep.len() || i <= width,
            out@ == rep@ + Seq::new((i - rep.len()) as nat, |k: int| 0u8),
        decreases width - i,
    {
        out.push(0u8);
        assert(out@ =~= rep@ + Seq::new((i + 1 - rep.len()) as nat, |k: int| 0u8));
        i += 1;
    }
    assert(out@ =~= filled(rep@, width as int));
    out
}

/// A unit of content that can be compared: a byte or a character.
pub trait Symbol: Copy + Sized {
    /// Whether the two units are the same.
    fn same_as(&self, other: &Self) -> (r: bool)
        ensures
            r == (*self == *other),
    ;
}

impl Symbol for u8 {
    fn same_as(&self, other: &Self) -> (r: bool) {
        *self == *other
    }
}

impl Symbol for char {
    fn same_as(&self, other: &Self) -> (r: bool) {
        *self == *other
    }
}

/// Whether `token` stands in `content` at offset `i`.
fn token_at<T: Symbol>(content: &[T], token: &[T], i: usize) -> (r: bool)
    requires
        i + token.len() <= content.len(),
    ensures
        r == (content@.subrange(i as int, i + token.len()) == token@),
{
    let mut k: usize = 0;
    while k < token.len()
        invariant
            k <= token.len(),
            i + token.len() <= content.len(),
            content@.subrange(i as int, i + k) == token@.take(k as int),
        decreases token.len() - k,
    {
        if !content[i + k].same_as(&token[k]) {
            assert(content@.subrange(i as int, i + token.len())[k as int] != token@[k as int]);
            return false;
        }
        assert(content@.subrange(i as int, i + k + 1) =~= content@.subrange(
            i as int,
            i + k,
        ).push(content@[i + k]));
        assert(token@.take(k + 1) =~= token@.take(k as int).push(token@[k as int]));
        k += 1;
    }
    assert(token@.take(token.len() as int) == token@);
    true
}

/// Replaces every occurrence of `token` in `content` by `with`, scanning
/// from the left; also tells whether there was an occurrence.
pub fn replace_token<T: Symbol>(content: &[T], token: &[T], with: &[T]) -> (r: (Vec<T>, bool))
    ensures
        r.0@ == rewritten(content@, token@, with@),
        token.len() > 0 ==> r.1 == contains(content@, token@),
        token.len() == 0 ==> !r.1,
{
    let mut out: Vec<T> = Vec::new();
    let mut found = false;
    let n = content.len();
    let t = token.len();
    if t == 0 || n < t {
        let mut i: usize = 0;
        while i < n
            invariant
                i <= n,
                n == content.len(),
                out@ == content@.take(i as int),
            decreases n - i,
        {
            out.push(content[i]);
            i += 1;
        }
        proof {
            assert(content@.take(n as int) == content@);
            if t > 0 {
                assert forall|j: int| 0 <= j implies !matches_at(content@, token@, j) by {}
                lemma_find_from_none(content@, token@, 0);
            }
        }
        return (out, false);
    }
    let mut i: usize = 0;
    proof {
        assert(content@.skip(0) == content@);
        assert(out@ + rewritten(content@, token@, with@) == rewritten(content@, token@, with@));
    }
    while i < n
        invariant
            i <= n,
            n == content.len(),
            t == token.len(),
            0 < t <= n,
            rewritten(content@, token@, with@) == out@ + rewritten(
                content@.skip(i as int),
                token@,
                with@,
            ),
            !found ==> forall|j: int| 0 <= j < i ==> !matches_at(content@, token@, j),
            found ==> contains(content@, token@),
        decreases n - i,
    {
        let ghost rest = content@.skip(i as int);
        if n - i >= t && token_at(content, token, i) {
            proof {
                assert(rest.take(t as int) =~= content@.subrange(i as int, i + t));
                assert(rest.skip(t as int) =~= content@.skip(i + t));
                if !found {
                    lemma_find_from_is(content@, token@, 0, i as int);
                }
            }
            let ghost before = out@;
            let mut k: usize = 0;
            while k < with.len()
                invariant
                    k <= with.len(),
                    out@ == before + with@.take(k as int),
                decreases with.len() - k,
            {
                out.push(with[k]);
                assert(with@.take(k + 1) =~= with@.take(k as int).push(with@[k as int]));
                k += 1;
            }
            proof {
                assert(with@.take(with.len() as int) == with@);
                assert(before + (with@ + rewritten(rest.skip(t as int), token@, with@)) =~= (before
                    + with@) + rewritten(rest.skip(t as int), token@, with@));
            }
            found = true;
            i += t;
        } else {
            proof {
                if n - i >= t {
                    assert(rest.take(t as int) =~= content@.subrange(i as int, i + t));
                }
                assert(rest.skip(1) =~= content@.skip(i + 1));
                assert(rest[0] == content@[i as int]);
                let tail = rewritten(rest.skip(1), token@, with@);
                if rest.len() >= t {
                    assert(out@ + (seq![rest[0]] + tail) =~= out@.push(content@[i as int]) + tail);
                } else {
                    assert(rest =~= seq![rest[0]] + rest.skip(1));
                    lemma_short_rest(rest.skip(1), token@, with@);
                    assert(out@ + rest =~= out@.push(content@[i as int]) + rest.skip(1));
                }
            }
            out.push(content[i]);
            i += 1;
        }
    }
    proof {
        assert(content@.skip(n as int) =~= Seq::<T>::empty());
        assert(out@ + Seq::<T>::empty() =~= out@);
        if !found {
            lemma_find_from_none(content@, token@, 0);
        }
    }
    (out, found)
}

/// What is shorter than the token is left as it is.
proof fn lemma_short_rest<T>(content: Seq<T>, token: Seq<T>, with: Seq<T>)
    requires
        content.len() < token.len(),
    ensures
        rewritten(content, token, with) == content,
{
}

/// Relocates `content` under `prefix`; also tells whether a token was found.
pub fn relocate_bytes(content: &[u8], prefix: &str) -> (r: (Vec<u8>, bool))
    ensures
        r.0@ == relocated(content@, prefix.spec_bytes()),
        r.1 == touched(content@, prefix.spec_bytes()),
{
    let prefix_bytes = prefix.as_bytes();
    let mut cellar: Vec<u8> = Vec::new();
    let mut i: usize = 0;
    while i < prefix_bytes.len()
        invariant
            i <= prefix_bytes.len(),
            cellar@ == prefix_bytes@.take(i as int),
        decreases prefix_bytes.len() - i,
    {
        cellar.push(prefix_bytes[i]);
        i += 1;
    }
    assert(prefix_bytes@.take(prefix_bytes.len() as int) == prefix_bytes@);
    cellar.push(47);
    cellar.push(67);
    cellar.push(101);
    cellar.push(108);
    cellar.push(108);
    cellar.push(97);
    cellar.push(114);
    assert(cellar@ =~= prefix_bytes@ + cellar_suffix());
    let first_token = prefix_token_bytes();
    let second_token = cellar_token_bytes();
    let first_fill = fill(prefix_bytes, TOKEN_LEN);
    let second_fill = fill(cellar.as_slice(), TOKEN_LEN);
    let (first, found_prefix) = replace_token(content, first_token.as_slice(), first_fill.as_slice());
    let (second, found_cellar) = replace_token(
        first.as_slice(),
        second_token.as_slice(),
        second_fill.as_slice(),
    );
    (second, found_prefix || found_cellar)
}

/// Tells whether `prefix` fits: whether `<prefix>/Cellar` is no longer
/// than a token. Relocation under a prefix that fits keeps the length of
/// every content; under a longer one, content that holds a token grows.
pub fn prefix_fits(prefix: &str) -> (r: bool)
    ensures
        r == (prefix.spec_bytes().len() + 7 <= TOKEN_LEN),
        r ==> forall|content: Seq<u8>| #[trigger]
            relocated(content, prefix.spec_bytes()).len() == content.len(),
{
    proof {
        if prefix.spec_bytes().len() + 7 <= TOKEN_LEN {
            assert forall|content: Seq<u8>| #[trigger]
                relocated(content, prefix.spec_bytes()).len() == content.len() by {
                lemma_relocated_keeps_length(content, prefix.spec_bytes());
            }
        }
    }
    prefix.as_bytes().len() <= 12
}

/// Decides what relocation under `prefix` does to a file with this content.
pub fn relocate_file(content: &[u8], prefix: &str) -> (r: Relocation)
    ensures
        match r {
            Relocation::Elf => is_elf(content@),
            Relocation::Unchanged => !is_elf(content@) && !touched(content@, prefix.spec_bytes()),
            Relocation::Rewritten(bytes) => !is_elf(content@) && touched(
                content@,
                prefix.spec_bytes(),
            ) && bytes@ == relocated(content@, prefix.spec_bytes()),
        },
{
    if is_elf_file(content) {
        return Relocation::Elf;
    }
    let (bytes, found) = relocate_bytes(content, prefix);
    if found {
        Relocation::Rewritten(bytes)
    } else {
        Relocation::Unchanged
    }
}

} // verus!
