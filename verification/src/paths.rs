//! Paths with `/` between their parts: the last part and its extension, and
//! whether one path lies inside another.

use vstd::prelude::*;
use vstd::string::*;

use crate::api::{api_error, api_error_model, ApiError, ApiErrorModel};
use crate::text::{chars_of, same_text, split, string_of};
use crate::text::{lemma_split_nonempty, split_model, texts_model};

verus! {

/// A part that names something: neither empty nor `.`.
pub open spec fn is_real_part(part: Seq<char>) -> bool {
    part.len() > 0 && part != seq!['.']
}

/// The last part that names something.
pub open spec fn last_real_part(parts: Seq<Seq<char>>) -> Option<Seq<char>>
    decreases parts.len(),
{
    if parts.len() == 0 {
        None
    } else if is_real_part(parts.last()) {
        Some(parts.last())
    } else {
        last_real_part(parts.drop_last())
    }
}

/// The last part of a path, unless that is `..` or there is none.
pub open spec fn file_name_model(path: Seq<char>) -> Option<Seq<char>> {
    match last_real_part(split_model(path, '/')) {
        Some(part) => if part == seq!['.', '.'] {
            None
        } else {
            Some(part)
        },
        None => None,
    }
}

/// What follows the last `.` of a file name, unless the name starts with it.
pub open spec fn extension_model(name: Seq<char>) -> Option<Seq<char>> {
    match name.index_of_last('.') {
        Some(i) => if i > 0 {
            Some(name.skip(i + 1))
        } else {
            None
        },
        None => None,
    }
}

/// Whether `ext` is `pdf`, in whatever case.
pub open spec fn is_pdf_extension(ext: Seq<char>) -> bool {
    &&& ext.len() == 3
    &&& ext[0] == 'p' || ext[0] == 'P'
    &&& ext[1] == 'd' || ext[1] == 'D'
    &&& ext[2] == 'f' || ext[2] == 'F'
}

/// Whether a path names a PDF file, by its extension.
pub open spec fn is_pdf_model(path: Seq<char>) -> bool {
    match file_name_model(path) {
        Some(name) => match extension_model(name) {
            Some(ext) => is_pdf_extension(ext),
            None => false,
        },
        None => false,
    }
}

/// The last part of a path, unless that is `..` or there is none.
pub fn file_name(path: &str) -> (r: Option<String>)
    ensures
        match r {
            Some(name) => file_name_model(path@) == Some(name@),
            None => file_name_model(path@) is None,
        },
{
    let parts = split(path, '/');
    let ghost all = texts_model(parts@);
    let mut n: usize = parts.len();
    proof {
        assert(all.take(n as int) =~= all);
        reveal_strlit(".");
        reveal_strlit("..");
        assert("."@ =~= seq!['.']);
        assert(".."@ =~= seq!['.', '.']);
    }
    while n > 0
        invariant
            n <= parts@.len(),
            all == texts_model(parts@),
            all == split_model(path@, '/'),
            "."@ == seq!['.'],
            ".."@ == seq!['.', '.'],
            last_real_part(all) == last_real_part(all.take(n as int)),
        decreases n,
    {
        proof {
            assert(all.take(n as int).drop_last() =~= all.take(n - 1));
            assert(all.take(n as int).last() == parts@[n - 1]@);
        }
        n = n - 1;
        let part = parts[n].as_str();
        if !part.is_empty() && !same_text(part, ".") {
            if same_text(part, "..") {
                return None;
            }
            return Some(part.to_owned());
        }
    }
    None
}

fn is_pdf_ext(chars: &Vec<char>, from: usize) -> (r: bool)
    requires
        from <= chars@.len(),
    ensures
        r == is_pdf_extension(chars@.skip(from as int)),
{
    chars.len() - from == 3 && (chars[from] == 'p' || chars[from] == 'P') && (chars[from + 1] == 'd'
        || chars[from + 1] == 'D') && (chars[from + 2] == 'f' || chars[from + 2] == 'F')
}

/// Whether a path names a PDF file, by its extension.
pub fn is_pdf_path(path: &str) -> (r: bool)
    ensures
        r == is_pdf_model(path@),
{
    match file_name(path) {
        None => false,
        Some(name) => {
            let chars = chars_of(name.as_str());
            let mut n: usize = chars.len();
            while n > 0
                invariant
                    n <= chars@.len(),
                    file_name_model(path@) == Some(chars@),
                    forall|j: int| n <= j < chars@.len() ==> chars@[j] != '.',
                decreases n,
            {
                n = n - 1;
                if chars[n] == '.' {
                    proof {
                        chars@.index_of_last_ensures('.');
                        assert(chars@.contains('.'));
                        assert(chars@.index_of_last('.') == Some(n as int));
                    }
                    return n > 0 && is_pdf_ext(&chars, n + 1);
                }
            }
            proof {
                chars@.index_of_last_ensures('.');
            }
            false
        },
    }
}

/// `path` without the slashes it starts with.
pub open spec fn without_leading_slashes(path: Seq<char>) -> Seq<char>
    decreases path.len(),
{
    if path.len() > 0 && path[0] == '/' {
        without_leading_slashes(path.skip(1))
    } else {
        path
    }
}

/// The path that a request asks for, relative to the root: never absolute, so
/// that joining it to the root cannot lead elsewhere by itself.
pub fn requested_path(relative: &str) -> (r: String)
    ensures
        r@ == without_leading_slashes(relative@),
        r@.len() == 0 || r@[0] != '/',
{
    let chars = chars_of(relative);
    let mut i: usize = 0;
    proof {
        assert(chars@.skip(0) =~= chars@);
    }
    while i < chars.len() && chars[i] == '/'
        invariant
            i <= chars@.len(),
            without_leading_slashes(chars@) == without_leading_slashes(chars@.skip(i as int)),
        decreases chars.len() - i,
    {
        proof {
            assert(chars@.skip(i as int).skip(1) =~= chars@.skip(i + 1));
        }
        i = i + 1;
    }
    proof {
        assert(chars@.skip(i as int) =~= chars@.subrange(i as int, chars@.len() as int));
    }
    string_of(&chars, i, chars.len())
}

/// The byte between the parts of a path.
pub const SLASH: u8 = 47;

/// The byte that stands, alone, for the directory itself.
pub const DOT: u8 = 46;

/// A part that is a component of its own: neither empty nor `.`.
pub open spec fn is_component(part: Seq<u8>) -> bool {
    part.len() > 0 && part != seq![DOT]
}

/// The parts that are components of their own, in order.
pub open spec fn real_components(parts: Seq<Seq<u8>>) -> Seq<Seq<u8>>
    decreases parts.len(),
{
    if parts.len() == 0 {
        Seq::empty()
    } else if is_component(parts.last()) {
        real_components(parts.drop_last()).push(parts.last())
    } else {
        real_components(parts.drop_last())
    }
}

/// What a path starts from: `/` where it is absolute, `.` where it says so.
pub open spec fn path_start(path: Seq<u8>) -> Seq<Seq<u8>> {
    if path.len() > 0 && path[0] == SLASH {
        seq![seq![SLASH]]
    } else if split_model(path, SLASH)[0] == seq![DOT] {
        seq![seq![DOT]]
    } else {
        Seq::empty()
    }
}

/// The components of a path: what it starts from, and the parts that name
/// something.
pub open spec fn components_model(path: Seq<u8>) -> Seq<Seq<u8>> {
    path_start(path) + real_components(split_model(path, SLASH))
}

/// Whether `path` is `root` or lies inside it, component by component.
pub open spec fn is_inside(path: Seq<u8>, root: Seq<u8>) -> bool {
    components_model(root).is_prefix_of(components_model(path))
}

/// The bytes of each part, in order.
pub open spec fn parts_model(parts: Seq<Vec<u8>>) -> Seq<Seq<u8>> {
    parts.map_values(|p: Vec<u8>| p@)
}

fn same_bytes(a: &Vec<u8>, b: &Vec<u8>) -> (r: bool)
    ensures
        r == (a@ == b@),
{
    if a.len() != b.len() {
        return false;
    }
    let mut i: usize = 0;
    while i < a.len()
        invariant
            i <= a@.len() == b@.len(),
            forall|j: int| 0 <= j < i ==> a@[j] == b@[j],
        decreases a.len() - i,
    {
        if a[i] != b[i] {
            return false;
        }
        i = i + 1;
    }
    assert(a@ =~= b@);
    true
}

fn split_bytes(path: &Vec<u8>) -> (r: Vec<Vec<u8>>)
    ensures
        parts_model(r@) == split_model(path@, SLASH),
{
    let mut done: Vec<Vec<u8>> = Vec::new();
    let mut piece: Vec<u8> = Vec::new();
    let mut i: usize = 0;
    proof {
        assert(path@.take(0) =~= Seq::empty());
        assert(parts_model(done@).push(piece@) =~= split_model(path@.take(0), SLASH));
    }
    while i < path.len()
        invariant
            i <= path@.len(),
            parts_model(done@).push(piece@) == split_model(path@.take(i as int), SLASH),
        decreases path.len() - i,
    {
        let ghost front = split_model(path@.take(i as int), SLASH);
        let ghost next = path@.take(i + 1);
        proof {
            assert(next.drop_last() =~= path@.take(i as int));
            assert(next.last() == path@[i as int]);
            assert(front.drop_last() =~= parts_model(done@));
            assert(front.last() == piece@);
        }
        if path[i] == SLASH {
            done.push(piece);
            proof {
                assert(parts_model(done@) =~= front);
            }
            piece = Vec::new();
        } else {
            piece.push(path[i]);
        }
        i = i + 1;
    }
    proof {
        assert(path@.take(i as int) =~= path@);
    }
    let ghost before = done@;
    let ghost last = piece@;
    done.push(piece);
    proof {
        assert(parts_model(done@) =~= parts_model(before).push(last));
    }
    done
}

fn components_of(path: &Vec<u8>) -> (r: Vec<Vec<u8>>)
    ensures
        parts_model(r@) == components_model(path@),
{
    let parts = split_bytes(path);
    let ghost all = parts_model(parts@);
    proof {
        lemma_split_nonempty(path@, SLASH);
        assert(all.len() == parts@.len());
        assert(all[0] == parts@[0]@);
    }
    let mut out: Vec<Vec<u8>> = Vec::new();
    if path.len() > 0 && path[0] == SLASH {
        let start = vec![SLASH];
        out.push(start);
        proof {
            assert(out@[0]@ =~= seq![SLASH]);
        }
    } else if parts[0].len() == 1 && parts[0][0] == DOT {
        let start = vec![DOT];
        out.push(start);
        proof {
            assert(out@[0]@ =~= seq![DOT]);
            assert(all[0] =~= seq![DOT]);
        }
    }
    let ghost start = parts_model(out@);
    proof {
        assert(start =~= path_start(path@));
        assert(all.take(0) =~= Seq::empty());
        assert(start + real_components(all.take(0)) =~= start);
    }
    let mut i: usize = 0;
    while i < parts.len()
        invariant
            i <= parts@.len(),
            all == parts_model(parts@),
            parts_model(out@) == start + real_components(all.take(i as int)),
        decreases parts.len() - i,
    {
        let ghost before = out@;
        proof {
            assert(all.take(i + 1).drop_last() =~= all.take(i as int));
            assert(all.take(i + 1).last() == parts@[i as int]@);
        }
        let part = &parts[i];
        if part.len() > 0 && !(part.len() == 1 && part[0] == DOT) {
            proof {
                assert(part@ != seq![DOT]);
            }
            let copy = part.clone();
            proof {
                assert(copy@ =~= part@);
            }
            out.push(copy);
            proof {
                assert(parts_model(out@) =~= parts_model(before).push(part@));
                assert(start + real_components(all.take(i as int)).push(part@) =~= (start
                    + real_components(all.take(i as int))).push(part@));
            }
        } else {
            proof {
                assert(part@.len() == 0 || part@ =~= seq![DOT]);
            }
        }
        i = i + 1;
    }
    proof {
        assert(all.take(i as int) =~= all);
    }
    out
}

/// Whether `path` is `root` or lies inside it, component by component.
pub fn lies_inside(path: &Vec<u8>, root: &Vec<u8>) -> (r: bool)
    ensures
        r == is_inside(path@, root@),
{
    let inner = components_of(path);
    let outer = components_of(root);
    let ghost a = components_model(path@);
    let ghost b = components_model(root@);
    if outer.len() > inner.len() {
        return false;
    }
    let mut i: usize = 0;
    while i < outer.len()
        invariant
            i <= outer@.len() <= inner@.len(),
            a == parts_model(inner@),
            b == parts_model(outer@),
            a == components_model(path@),
            b == components_model(root@),
            forall|j: int| 0 <= j < i ==> a[j] == b[j],
        decreases outer.len() - i,
    {
        proof {
            assert(a[i as int] == inner@[i as int]@);
            assert(b[i as int] == outer@[i as int]@);
        }
        if !same_bytes(&inner[i], &outer[i]) {
            proof {
                assert(a.take(b.len() as int)[i as int] != b[i as int]);
            }
            return false;
        }
        i = i + 1;
    }
    proof {
        assert(b =~= a.take(b.len() as int));
    }
    true
}

/// What a request for a path is answered, given where the path and the root
/// really are: the path, if it lies inside the root.
pub open spec fn resolve_model(canonical: Option<Seq<u8>>, root: Option<Seq<u8>>) -> Result<
    Seq<u8>,
    ApiErrorModel,
> {
    match (canonical, root) {
        (None, _) => Err(api_error_model(404, "not_found"@)),
        (_, None) => Err(api_error_model(500, "server_misconfigured"@)),
        (Some(path), Some(top)) => if is_inside(path, top) {
            Ok(path)
        } else {
            Err(api_error_model(404, "not_found"@))
        },
    }
}

/// Accepts the place that a requested path leads to only where it lies inside
/// the root: the only thing between a browser tab and every file on the
/// machine. `canonical` is nothing where the path leads nowhere. A path that leads
/// outside the root is refused in the same words, so that a refusal does not
/// tell what is there.
pub fn resolve_safe_path(canonical: Option<Vec<u8>>, root: Option<Vec<u8>>) -> (r: Result<
    Vec<u8>,
    ApiError,
>)
    ensures
        (match r {
            Ok(path) => Ok(path@),
            Err(e) => Err(e@),
        }) == resolve_model(
            match canonical {
                Some(path) => Some(path@),
                None => None,
            },
            match root {
                Some(top) => Some(top@),
                None => None,
            },
        ),
{
    match canonical {
        None => Err(api_error(404, "not_found")),
        Some(path) => match root {
            None => Err(api_error(500, "server_misconfigured")),
            Some(top) => if lies_inside(&path, &top) {
                Ok(path)
            } else {
                Err(api_error(404, "not_found"))
            },
        },
    }
}

/// Nothing outside the root is ever handed out: a path that is accepted is the
/// one asked about, and lies inside the root.
pub proof fn law_accepted_paths_lie_inside(canonical: Option<Seq<u8>>, root: Option<Seq<u8>>)
    ensures
        match resolve_model(canonical, root) {
            Ok(path) => canonical == Some(path) && root is Some && is_inside(path, root->0),
            Err(_) => canonical is None || root is None || !is_inside(canonical->0, root->0),
        },
{
}

/// A refusal does not tell whether anything is there: a path that leads
/// nowhere and one that leads outside the root get the same answer.
pub proof fn law_refusals_look_alike(outside: Seq<u8>, root: Seq<u8>)
    requires
        !is_inside(outside, root),
    ensures
        resolve_model(Some(outside), Some(root)) == resolve_model(None, Some(root)),
        resolve_model(None, Some(root)) is Err,
{
}

/// A directory lies inside itself, and what lies inside something that lies
/// inside the root lies inside the root.
pub proof fn law_inside_nests(inner: Seq<u8>, middle: Seq<u8>, outer: Seq<u8>)
    ensures
        is_inside(outer, outer),
        is_inside(inner, middle) && is_inside(middle, outer) ==> is_inside(inner, outer),
{
    let a = components_model(inner);
    let b = components_model(middle);
    let c = components_model(outer);
    assert(c =~= c.take(c.len() as int));
    if is_inside(inner, middle) && is_inside(middle, outer) {
        assert(a.take(c.len() as int) =~= a.take(b.len() as int).take(c.len() as int));
    }
}

/// With `/` as the root every absolute path lies inside it.
pub proof fn law_every_absolute_path_lies_in_the_top(path: Seq<u8>)
    requires
        path.len() > 0,
        path[0] == SLASH,
    ensures
        is_inside(path, seq![SLASH]),
{
    let top = seq![SLASH];
    assert(top.drop_last() =~= Seq::empty());
    reveal_with_fuel(split_model, 3);
    let parts = split_model(top, SLASH);
    assert(parts =~= seq![Seq::<u8>::empty(), Seq::<u8>::empty()]);
    assert(parts.drop_last() =~= seq![Seq::<u8>::empty()]);
    assert(parts.drop_last().drop_last() =~= Seq::empty());
    reveal_with_fuel(real_components, 4);
    assert(real_components(parts) =~= Seq::empty());
    assert(components_model(top) =~= seq![seq![SLASH]]);
    assert(components_model(top) =~= components_model(path).take(1));
}

/// A part as it can stand in a canonical path.
pub open spec fn is_plain_part(part: Seq<u8>) -> bool {
    is_component(part) && !part.contains(SLASH)
}

/// Each part after a slash.
pub open spec fn written(parts: Seq<Seq<u8>>) -> Seq<u8>
    decreases parts.len(),
{
    if parts.len() == 0 {
        Seq::empty()
    } else {
        written(parts.drop_last()).push(SLASH) + parts.last()
    }
}

/// The absolute path made of these parts.
pub open spec fn absolute(parts: Seq<Seq<u8>>) -> Seq<u8> {
    if parts.len() == 0 {
        seq![SLASH]
    } else {
        written(parts)
    }
}

proof fn lemma_split_part(head: Seq<u8>, part: Seq<u8>)
    requires
        !part.contains(SLASH),
    ensures
        split_model(head.push(SLASH) + part, SLASH) == split_model(head, SLASH).push(part),
    decreases part.len(),
{
    let s = head.push(SLASH) + part;
    let front = split_model(head, SLASH);
    if part.len() == 0 {
        assert(s =~= head.push(SLASH));
        assert(s.drop_last() =~= head);
        assert(part =~= Seq::empty());
    } else {
        let short = part.drop_last();
        assert forall|i: int| 0 <= i < short.len() implies short[i] != SLASH by {
            assert(part[i] == short[i]);
        }
        assert(part.last() != SLASH) by {
            assert(part[part.len() - 1] == part.last());
        }
        lemma_split_part(head, short);
        assert(s.drop_last() =~= head.push(SLASH) + short);
        assert(front.push(short).drop_last() =~= front);
        assert(short.push(part.last()) =~= part);
    }
}

proof fn lemma_split_written(parts: Seq<Seq<u8>>)
    requires
        forall|i: int| 0 <= i < parts.len() ==> is_plain_part(#[trigger] parts[i]),
    ensures
        split_model(written(parts), SLASH) == seq![Seq::<u8>::empty()] + parts,
        parts.len() > 0 ==> written(parts).len() > 0 && written(parts)[0] == SLASH,
    decreases parts.len(),
{
    if parts.len() == 0 {
        assert(seq![Seq::<u8>::empty()] + parts =~= seq![Seq::<u8>::empty()]);
    } else {
        let front = parts.drop_last();
        assert forall|i: int| 0 <= i < front.len() implies is_plain_part(#[trigger] front[i]) by {
            assert(front[i] == parts[i]);
        }
        lemma_split_written(front);
        assert(is_plain_part(parts[parts.len() - 1]));
        lemma_split_part(written(front), parts.last());
        assert((seq![Seq::<u8>::empty()] + front).push(parts.last()) =~= seq![Seq::<u8>::empty()]
            + parts);
    }
}

proof fn lemma_real_components_of_plain(parts: Seq<Seq<u8>>)
    requires
        forall|i: int| 0 <= i < parts.len() ==> is_plain_part(#[trigger] parts[i]),
    ensures
        real_components(seq![Seq::<u8>::empty()] + parts) == parts,
    decreases parts.len(),
{
    let all = seq![Seq::<u8>::empty()] + parts;
    if parts.len() == 0 {
        assert(all =~= seq![Seq::<u8>::empty()]);
        assert(all.drop_last() =~= Seq::empty());
        reveal_with_fuel(real_components, 2);
        assert(real_components(all) =~= parts);
    } else {
        let front = parts.drop_last();
        assert forall|i: int| 0 <= i < front.len() implies is_plain_part(#[trigger] front[i]) by {
            assert(front[i] == parts[i]);
        }
        lemma_real_components_of_plain(front);
        assert(all.drop_last() =~= seq![Seq::<u8>::empty()] + front);
        assert(is_plain_part(parts[parts.len() - 1]));
        assert(front.push(parts.last()) =~= parts);
    }
}

proof fn lemma_components_of_absolute(parts: Seq<Seq<u8>>)
    requires
        forall|i: int| 0 <= i < parts.len() ==> is_plain_part(#[trigger] parts[i]),
    ensures
        components_model(absolute(parts)) == seq![seq![SLASH]] + parts,
{
    if parts.len() == 0 {
        let top = seq![SLASH];
        lemma_split_part(Seq::empty(), Seq::empty());
        assert(Seq::<u8>::empty().push(SLASH) + Seq::<u8>::empty() =~= top);
        let two = split_model(top, SLASH);
        assert(two =~= seq![Seq::<u8>::empty(), Seq::<u8>::empty()]);
        assert(two.drop_last() =~= seq![Seq::<u8>::empty()]);
        assert(two.drop_last().drop_last() =~= Seq::empty());
        reveal_with_fuel(real_components, 3);
        assert(components_model(top) =~= seq![seq![SLASH]] + parts);
    } else {
        lemma_split_written(parts);
        lemma_real_components_of_plain(parts);
    }
}

/// Containment goes by whole parts: of two canonical paths one lies inside the
/// other exactly when the other's parts are the first parts of the one. So
/// `/work-old` does not lie inside `/work`.
pub proof fn law_containment_goes_by_parts(path: Seq<Seq<u8>>, root: Seq<Seq<u8>>)
    requires
        forall|i: int| 0 <= i < path.len() ==> is_plain_part(#[trigger] path[i]),
        forall|i: int| 0 <= i < root.len() ==> is_plain_part(#[trigger] root[i]),
    ensures
        is_inside(absolute(path), absolute(root)) <==> root.is_prefix_of(path),
{
    lemma_components_of_absolute(path);
    lemma_components_of_absolute(root);
    let a = seq![seq![SLASH]] + path;
    let b = seq![seq![SLASH]] + root;
    if root.is_prefix_of(path) {
        assert(b =~= a.take(b.len() as int));
    }
    if b.is_prefix_of(a) {
        assert forall|i: int| 0 <= i < root.len() implies root[i] == path[i] by {
            assert(root[i] == b[i + 1]);
            assert(path[i] == a[i + 1]);
            assert(a.take(b.len() as int)[i + 1] == a[i + 1]);
        }
        assert(root =~= path.take(root.len() as int));
    }
}

proof fn lemma_split_at_slash(head: Seq<char>, part: Seq<char>)
    requires
        !part.contains('/'),
    ensures
        split_model(head.push('/') + part, '/') == split_model(head, '/').push(part),
    decreases part.len(),
{
    let s = head.push('/') + part;
    let front = split_model(head, '/');
    if part.len() == 0 {
        assert(s =~= head.push('/'));
        assert(s.drop_last() =~= head);
        assert(part =~= Seq::empty());
    } else {
        let short = part.drop_last();
        assert forall|i: int| 0 <= i < short.len() implies short[i] != '/' by {
            assert(part[i] == short[i]);
        }
        assert(part.last() != '/') by {
            assert(part[part.len() - 1] == part.last());
        }
        lemma_split_at_slash(head, short);
        assert(s.drop_last() =~= head.push('/') + short);
        assert(front.push(short).drop_last() =~= front);
        assert(short.push(part.last()) =~= part);
    }
}

proof fn lemma_split_without_slash(part: Seq<char>)
    requires
        !part.contains('/'),
    ensures
        split_model(part, '/') == seq![part],
    decreases part.len(),
{
    if part.len() > 0 {
        let short = part.drop_last();
        assert forall|i: int| 0 <= i < short.len() implies short[i] != '/' by {
            assert(part[i] == short[i]);
        }
        assert(part[part.len() - 1] == part.last());
        lemma_split_without_slash(short);
        assert(short.push(part.last()) =~= part);
        assert(split_model(part, '/') =~= seq![part]);
    } else {
        assert(part =~= Seq::empty());
        assert(split_model(part, '/') =~= seq![part]);
    }
}

/// A file's name is what follows the last slash of its path, or all of a path
/// without one.
pub proof fn law_the_name_follows_the_last_slash(dir: Seq<char>, name: Seq<char>)
    requires
        !name.contains('/'),
        name.len() > 0,
        name != seq!['.'],
        name != seq!['.', '.'],
    ensures
        file_name_model(dir.push('/') + name) == Some(name),
        file_name_model(name) == Some(name),
{
    lemma_split_at_slash(dir, name);
    lemma_split_without_slash(name);
    assert(split_model(dir, '/').push(name).last() == name);
    assert(seq![name].last() == name);
}

/// A slash at the end of a path, and a `.` after one, make no difference to the
/// name; after `..` there is none, nor is there one in an empty path or in `.`.
pub proof fn law_dots_and_slashes_are_no_names(path: Seq<char>)
    ensures
        file_name_model(path.push('/')) == file_name_model(path),
        file_name_model(path.push('/').push('.')) == file_name_model(path),
        file_name_model(path.push('/').push('.').push('.')) is None,
        file_name_model(seq!['.', '.']) is None,
        file_name_model(seq!['.']) is None,
        file_name_model(Seq::empty()) is None,
{
    let none = Seq::<char>::empty();
    let one = seq!['.'];
    let two = seq!['.', '.'];
    let front = split_model(path, '/');
    assert(!none.contains('/'));
    assert(!one.contains('/'));
    assert(!two.contains('/'));
    lemma_split_at_slash(path, none);
    lemma_split_at_slash(path, one);
    lemma_split_at_slash(path, two);
    assert(path.push('/') + none =~= path.push('/'));
    assert(path.push('/') + one =~= path.push('/').push('.'));
    assert(path.push('/') + two =~= path.push('/').push('.').push('.'));
    assert(front.push(none).drop_last() =~= front);
    assert(front.push(one).drop_last() =~= front);
    assert(front.push(none).last() == none);
    assert(front.push(one).last() == one);
    assert(front.push(two).last() == two);
    assert(two.len() != one.len());
    lemma_split_without_slash(none);
    lemma_split_without_slash(one);
    lemma_split_without_slash(two);
    assert(seq![none].drop_last() =~= Seq::empty());
    assert(seq![one].drop_last() =~= Seq::empty());
    assert(seq![one].last() == one);
    assert(seq![two].last() == two);
    reveal_with_fuel(last_real_part, 2);
}

proof fn lemma_last_dot(stem: Seq<char>, ext: Seq<char>)
    requires
        !ext.contains('.'),
    ensures
        (stem.push('.') + ext).index_of_last('.') == Some(stem.len() as int),
        (stem.push('.') + ext).skip(stem.len() as int + 1) == ext,
{
    let name = stem.push('.') + ext;
    name.index_of_last_ensures('.');
    assert(name[stem.len() as int] == '.');
    assert(name.contains('.'));
    let at = name.index_of_last('.')->0;
    if at > stem.len() {
        assert(name[at] == ext[at - stem.len() - 1]);
        assert(ext.contains('.'));
    }
    assert(name.skip(stem.len() as int + 1) =~= ext);
}

/// A path names a PDF exactly where its file name has something before the last
/// dot and `pdf`, in whatever case, after it.
pub proof fn law_a_pdf_is_known_by_its_extension(
    path: Seq<char>,
    stem: Seq<char>,
    ext: Seq<char>,
)
    requires
        file_name_model(path) == Some(stem.push('.') + ext),
        !ext.contains('.'),
    ensures
        is_pdf_model(path) <==> {
            &&& stem.len() > 0
            &&& ext.len() == 3
            &&& ext[0] == 'p' || ext[0] == 'P'
            &&& ext[1] == 'd' || ext[1] == 'D'
            &&& ext[2] == 'f' || ext[2] == 'F'
        },
{
    lemma_last_dot(stem, ext);
}

/// A file name without a dot, and a path without a file name, name no PDF.
pub proof fn law_without_an_extension_there_is_no_pdf(path: Seq<char>)
    requires
        file_name_model(path) is None || !(file_name_model(path)->0).contains('.'),
    ensures
        !is_pdf_model(path),
{
    if file_name_model(path) is Some {
        (file_name_model(path)->0).index_of_last_ensures('.');
    }
}

/// The slashes that a requested path starts with are dropped, however many, and
/// nothing else of it is.
pub proof fn law_only_leading_slashes_are_dropped(slashes: Seq<char>, rest: Seq<char>)
    requires
        forall|i: int| 0 <= i < slashes.len() ==> #[trigger] slashes[i] == '/',
        rest.len() > 0 ==> rest[0] != '/',
    ensures
        without_leading_slashes(slashes + rest) == rest,
    decreases slashes.len(),
{
    if slashes.len() == 0 {
        assert(slashes + rest =~= rest);
    } else {
        assert forall|i: int| 0 <= i < slashes.skip(1).len() implies #[trigger] slashes.skip(1)[i]
            == '/' by {
            assert(slashes.skip(1)[i] == slashes[i + 1]);
        }
        law_only_leading_slashes_are_dropped(slashes.skip(1), rest);
        assert((slashes + rest).skip(1) =~= slashes.skip(1) + rest);
        assert((slashes + rest)[0] == slashes[0]);
    }
}

/// What a request for a path is answered: the place itself, unchanged, where it
/// lies inside the root; that nothing is there where it does not, or leads
/// nowhere; and that the server is at fault where its own root is nowhere.
pub proof fn law_a_path_is_answered_by_its_place(path: Seq<u8>, root: Seq<u8>)
    ensures
        is_inside(path, root) ==> resolve_model(Some(path), Some(root)) == Ok::<
            Seq<u8>,
            ApiErrorModel,
        >(path),
        !is_inside(path, root) ==> {
            &&& resolve_model(Some(path), Some(root)) is Err
            &&& resolve_model(Some(path), Some(root))->Err_0.status == 404
            &&& resolve_model(Some(path), Some(root))->Err_0.body.text_member("error"@) == Some(
                "not_found"@,
            )
        },
        resolve_model(None, Some(root)) is Err,
        resolve_model(None, Some(root))->Err_0.status == 404,
        resolve_model(None, Some(root))->Err_0.body.text_member("error"@) == Some("not_found"@),
        resolve_model(None, None) == resolve_model(None, Some(root)),
        resolve_model(Some(path), None) is Err,
        resolve_model(Some(path), None)->Err_0.status == 500,
        resolve_model(Some(path), None)->Err_0.body.text_member("error"@) == Some(
            "server_misconfigured"@,
        ),
{
}

/// Of two absolute paths without `.` and empty parts, the one that adds parts
/// to the other lies inside it, and one that differs in a part does not. The
/// parts of a path are what stands after its slashes.
pub proof fn law_containment_by_parts_as_written(
    path: Seq<Seq<u8>>,
    root: Seq<Seq<u8>>,
)
    requires
        forall|i: int|
            0 <= i < path.len() ==> (#[trigger] path[i]).len() > 0 && path[i] != seq![46u8]
                && !path[i].contains(47),
        forall|i: int|
            0 <= i < root.len() ==> (#[trigger] root[i]).len() > 0 && root[i] != seq![46u8]
                && !root[i].contains(47),
    ensures
        is_inside(absolute(path), absolute(root)) <==> root.len() <= path.len() && forall|i: int|
            0 <= i < root.len() ==> #[trigger] root[i] == path[i],
{
    assert forall|i: int| 0 <= i < path.len() implies is_plain_part(#[trigger] path[i]) by {}
    assert forall|i: int| 0 <= i < root.len() implies is_plain_part(#[trigger] root[i]) by {}
    law_containment_goes_by_parts(path, root);
    if root.is_prefix_of(path) {
        assert forall|i: int| 0 <= i < root.len() implies #[trigger] root[i] == path[i] by {
            assert(path.take(root.len() as int)[i] == path[i]);
        }
    }
    if root.len() <= path.len() && forall|i: int|
        0 <= i < root.len() ==> #[trigger] root[i] == path[i] {
        assert(root =~= path.take(root.len() as int));
    }
}

} // verus!
