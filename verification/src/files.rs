//! Directory listings and file previews.

use vstd::prelude::*;
use vstd::string::*;

use vstd::utf8::{decode_utf8, valid_utf8};

use crate::api::{answer_model, api_error, api_error_model, ApiError, ApiErrorModel};
use crate::json::{empty_object, items_model, json_number, number_model, Json, JsonModel};
use crate::text::{chars_of, decimal, join3, same_text};
use crate::text::decimal_model;

verus! {

/// An entry of a listing.
#[derive(Debug, PartialEq, Eq)]
pub struct FileEntry {
    pub name: String,
    pub is_dir: bool,
    pub size: u64,
}

/// What the file system says of a file or a directory.
#[derive(Debug, Clone, Copy, PartialEq, Eq)]
pub struct EntryMeta {
    pub is_dir: bool,
    pub len: u64,
}

/// A name found in a directory, with what could be learned of it.
#[derive(Debug, PartialEq, Eq)]
pub struct FoundEntry {
    pub name: String,
    pub meta: Option<EntryMeta>,
}

/// Whether `a` comes before `b`, character by character.
pub open spec fn text_before(a: Seq<char>, b: Seq<char>) -> bool
    decreases a.len(),
{
    if b.len() == 0 {
        false
    } else if a.len() == 0 {
        true
    } else if a[0] != b[0] {
        a[0] < b[0]
    } else {
        text_before(a.skip(1), b.skip(1))
    }
}

/// Directories come first, and names in order among equals.
pub open spec fn entry_before(a: FileEntry, b: FileEntry) -> bool {
    ||| a.is_dir && !b.is_dir
    ||| a.is_dir == b.is_dir && text_before(a.name@, b.name@)
}

/// Neither comes before the other.
pub open spec fn same_place(a: FileEntry, b: FileEntry) -> bool {
    a.is_dir == b.is_dir && a.name@ == b.name@
}

/// Nothing stands after something it comes before.
pub open spec fn in_order(s: Seq<FileEntry>) -> bool {
    forall|i: int, j: int| 0 <= i < j < s.len() ==> !entry_before(#[trigger] s[j], #[trigger] s[i])
}

/// The entries of `s` at the place of `e`, as they stand in `s`.
pub open spec fn at_place(s: Seq<FileEntry>, e: FileEntry) -> Seq<FileEntry> {
    s.filter(|x: FileEntry| same_place(x, e))
}

/// `out` holds the entries of `input` in order; entries at the same place
/// stand as they stood.
pub open spec fn is_listing_of(out: Seq<FileEntry>, input: Seq<FileEntry>) -> bool {
    &&& in_order(out)
    &&& forall|e: FileEntry| #[trigger] at_place(out, e) == at_place(input, e)
}

proof fn lemma_text_order(a: Seq<char>, b: Seq<char>)
    ensures
        !text_before(a, a),
        text_before(a, b) ==> !text_before(b, a),
        a == b || text_before(a, b) || text_before(b, a),
    decreases a.len(),
{
    if a.len() > 0 {
        if b.len() > 0 {
            lemma_text_order(a.skip(1), b.skip(1));
            if a[0] == b[0] && a.skip(1) == b.skip(1) {
                assert(a =~= seq![a[0]] + a.skip(1));
                assert(b =~= seq![b[0]] + b.skip(1));
            }
        } else {
            lemma_text_order(a.skip(1), b);
        }
    } else if b.len() == 0 {
        assert(a =~= b);
    }
}

proof fn lemma_text_order_transitive(a: Seq<char>, b: Seq<char>, c: Seq<char>)
    requires
        !text_before(b, a),
        !text_before(c, b),
    ensures
        !text_before(c, a),
        text_before(a, b) || text_before(b, c) ==> text_before(a, c),
    decreases a.len(),
{
    if a.len() > 0 && b.len() > 0 && c.len() > 0 {
        if a[0] == b[0] && b[0] == c[0] {
            lemma_text_order_transitive(a.skip(1), b.skip(1), c.skip(1));
        }
    }
}

/// What `entry_before` says of three entries in a row.
proof fn lemma_entry_order(a: FileEntry, b: FileEntry, c: FileEntry)
    ensures
        !entry_before(a, a),
        entry_before(a, b) ==> !entry_before(b, a),
        same_place(a, b) || entry_before(a, b) || entry_before(b, a),
        !entry_before(b, a) && !entry_before(c, b) ==> !entry_before(c, a),
        !entry_before(b, a) && !entry_before(c, b) && (entry_before(a, b) || entry_before(b, c))
            ==> entry_before(a, c),
{
    lemma_text_order(a.name@, b.name@);
    if !text_before(b.name@, a.name@) && !text_before(c.name@, b.name@) {
        lemma_text_order_transitive(a.name@, b.name@, c.name@);
    }
}

fn chars_before(a: &Vec<char>, b: &Vec<char>) -> (r: bool)
    ensures
        r == text_before(a@, b@),
{
    let mut i: usize = 0;
    proof {
        assert(a@.skip(0) =~= a@);
        assert(b@.skip(0) =~= b@);
    }
    while i < a.len() && i < b.len()
        invariant
            i <= a@.len(),
            i <= b@.len(),
            text_before(a@, b@) == text_before(a@.skip(i as int), b@.skip(i as int)),
        decreases a.len() - i,
    {
        if a[i] != b[i] {
            return a[i] < b[i];
        }
        proof {
            assert(a@.skip(i as int).skip(1) =~= a@.skip(i + 1));
            assert(b@.skip(i as int).skip(1) =~= b@.skip(i + 1));
        }
        i = i + 1;
    }
    i < b.len()
}

fn comes_before(a: &FileEntry, b: &FileEntry) -> (r: bool)
    ensures
        r == entry_before(*a, *b),
{
    if a.is_dir != b.is_dir {
        a.is_dir
    } else {
        chars_before(&chars_of(a.name.as_str()), &chars_of(b.name.as_str()))
    }
}

proof fn lemma_at_place_last(s: Seq<FileEntry>, e: FileEntry)
    requires
        s.len() > 0,
    ensures
        at_place(s, e) == at_place(s.drop_last(), e) + at_place(seq![s.last()], e),
{
    Seq::filter_distributes_over_add(
        s.drop_last(),
        seq![s.last()],
        |x: FileEntry| same_place(x, e),
    );
    assert(s =~= s.drop_last() + seq![s.last()]);
}

proof fn lemma_at_place_none(s: Seq<FileEntry>, e: FileEntry)
    requires
        forall|i: int| 0 <= i < s.len() ==> !same_place(#[trigger] s[i], e),
    ensures
        at_place(s, e) == Seq::<FileEntry>::empty(),
    decreases s.len(),
{
    reveal(Seq::filter);
    if s.len() > 0 {
        let front = s.drop_last();
        assert forall|i: int| 0 <= i < front.len() implies !same_place(#[trigger] front[i], e) by {
            assert(front[i] == s[i]);
        }
        lemma_at_place_none(front, e);
        assert(!same_place(s[s.len() - 1], e));
    }
    assert(at_place(s, e) =~= Seq::<FileEntry>::empty());
}

/// Moving the last entry of `a`, or of `b`, to the front of `tail` keeps what
/// the three hold at a place; one of `a` must not pass any of `b` at its place.
proof fn lemma_move_last(
    a: Seq<FileEntry>,
    b: Seq<FileEntry>,
    tail: Seq<FileEntry>,
    from_a: bool,
    e: FileEntry,
)
    requires
        from_a ==> a.len() > 0,
        !from_a ==> b.len() > 0,
        from_a ==> forall|i: int| 0 <= i < b.len() ==> !same_place(#[trigger] b[i], a.last()),
    ensures
        at_place(a, e) + at_place(b, e) + at_place(tail, e) == if from_a {
            at_place(a.drop_last(), e) + at_place(b, e) + at_place(seq![a.last()] + tail, e)
        } else {
            at_place(a, e) + at_place(b.drop_last(), e) + at_place(seq![b.last()] + tail, e)
        },
{
    let place = |x: FileEntry| same_place(x, e);
    if from_a {
        lemma_at_place_last(a, e);
        Seq::filter_distributes_over_add(seq![a.last()], tail, place);
        if same_place(a.last(), e) {
            assert forall|i: int| 0 <= i < b.len() implies !same_place(#[trigger] b[i], e) by {
                assert(!same_place(b[i], a.last()));
            }
            lemma_at_place_none(b, e);
        } else {
            lemma_at_place_none(seq![a.last()], e);
        }
        assert(at_place(a, e) + at_place(b, e) + at_place(tail, e) =~= at_place(a.drop_last(), e)
            + at_place(b, e) + at_place(seq![a.last()] + tail, e));
    } else {
        lemma_at_place_last(b, e);
        Seq::filter_distributes_over_add(seq![b.last()], tail, place);
        assert(at_place(a, e) + at_place(b, e) + at_place(tail, e) =~= at_place(a, e) + at_place(
            b.drop_last(),
            e,
        ) + at_place(seq![b.last()] + tail, e));
    }
}

/// Nothing in `tail` comes before anything in `s`.
spec fn all_before(s: Seq<FileEntry>, tail: Seq<FileEntry>) -> bool {
    forall|i: int, j: int|
        0 <= i < s.len() && 0 <= j < tail.len() ==> !entry_before(
            #[trigger] tail[j],
            #[trigger] s[i],
        )
}

/// Merges two listings into one; of entries at the same place those of `a`
/// come first.
fn merge(a: Vec<FileEntry>, b: Vec<FileEntry>) -> (r: Vec<FileEntry>)
    requires
        in_order(a@),
        in_order(b@),
    ensures
        in_order(r@),
        forall|e: FileEntry| #[trigger] at_place(r@, e) == at_place(a@, e) + at_place(b@, e),
{
    let ghost a0 = a@;
    let ghost b0 = b@;
    let mut a = a;
    let mut b = b;
    let mut acc: Vec<FileEntry> = Vec::new();
    let ghost mut tail: Seq<FileEntry> = Seq::empty();
    proof {
        assert forall|e: FileEntry|
            (#[trigger] at_place(a0, e)) + at_place(b0, e) == at_place(a@, e) + at_place(b@, e)
                + at_place(tail, e) by {
            lemma_at_place_none(tail, e);
            assert(at_place(a0, e) + at_place(b0, e) =~= at_place(a@, e) + at_place(b@, e)
                + at_place(tail, e));
        }
    }
    while a.len() > 0 || b.len() > 0
        invariant
            in_order(a@),
            in_order(b@),
            in_order(tail),
            all_before(a@, tail),
            all_before(b@, tail),
            acc@ == tail.reverse(),
            forall|e: FileEntry|
                (#[trigger] at_place(a0, e)) + at_place(b0, e) == at_place(a@, e) + at_place(b@, e)
                    + at_place(tail, e),
        decreases a.len() + b.len(),
    {
        let ghost a1 = a@;
        let ghost b1 = b@;
        let ghost tail1 = tail;
        let take_a = b.len() == 0 || (a.len() > 0 && comes_before(
            &b[b.len() - 1],
            &a[a.len() - 1],
        ));
        proof {
            if take_a && b1.len() > 0 {
                assert forall|i: int| 0 <= i < b1.len() implies entry_before(
                    #[trigger] b1[i],
                    a1.last(),
                ) by {
                    lemma_entry_order(b1[i], b1[b1.len() - 1], a1.last());
                    lemma_entry_order(b1.last(), a1.last(), b1.last());
                }
            }
            if !take_a && a1.len() > 0 {
                assert forall|i: int| 0 <= i < a1.len() implies !entry_before(
                    b1.last(),
                    #[trigger] a1[i],
                ) by {
                    lemma_entry_order(a1[i], a1[a1.len() - 1], b1.last());
                }
            }
        }
        let next = if take_a {
            a.pop().unwrap()
        } else {
            b.pop().unwrap()
        };
        proof {
            tail = seq![next] + tail1;
            assert forall|i: int| 0 <= i < a@.len() implies !entry_before(
                next,
                #[trigger] a@[i],
            ) by {
                lemma_entry_order(a@[i], next, next);
            }
            assert forall|i: int| 0 <= i < b@.len() implies !entry_before(
                next,
                #[trigger] b@[i],
            ) by {
                lemma_entry_order(b@[i], next, next);
            }
            assert(acc@.push(next) =~= tail.reverse());
            assert forall|e: FileEntry|
                (#[trigger] at_place(a0, e)) + at_place(b0, e) == at_place(a@, e) + at_place(b@, e)
                    + at_place(tail, e) by {
                if take_a {
                    assert forall|i: int| 0 <= i < b1.len() implies !same_place(
                        #[trigger] b1[i],
                        a1.last(),
                    ) by {
                        assert(entry_before(b1[i], a1.last()));
                        lemma_text_order(b1[i].name@, a1.last().name@);
                    }
                }
                lemma_move_last(a1, b1, tail1, take_a, e);
            }
        }
        acc.push(next);
    }
    let ghost done = tail;
    proof {
        assert forall|e: FileEntry| #[trigger] at_place(done, e) == at_place(a0, e) + at_place(
            b0,
            e,
        ) by {
            lemma_at_place_none(a@, e);
            lemma_at_place_none(b@, e);
            assert(at_place(a0, e) + at_place(b0, e) =~= at_place(done, e));
        }
    }
    let mut out: Vec<FileEntry> = Vec::new();
    while acc.len() > 0
        invariant
            out@ + acc@.reverse() == done,
        decreases acc.len(),
    {
        let ghost acc1 = acc@;
        let ghost out1 = out@;
        let next = acc.pop().unwrap();
        out.push(next);
        proof {
            assert(out@ + acc@.reverse() =~= out1 + acc1.reverse());
        }
    }
    proof {
        assert(out@ + acc@.reverse() =~= out@);
    }
    out
}

/// The entries in order: directories first, then by name; entries at the same
/// place stay as they stood.
pub fn sort_entries(entries: Vec<FileEntry>) -> (r: Vec<FileEntry>)
    ensures
        is_listing_of(r@, entries@),
    decreases entries@.len(),
{
    let n: usize = entries.len();
    if n <= 1 {
        return entries;
    }
    let ghost all = entries@;
    let mut left = entries;
    let right = left.split_off(n / 2);
    let ghost l = left@;
    let ghost r = right@;
    let out = merge(sort_entries(left), sort_entries(right));
    proof {
        assert(all =~= l + r);
        assert forall|e: FileEntry| #[trigger] at_place(out@, e) == at_place(all, e) by {
            Seq::filter_distributes_over_add(l, r, |x: FileEntry| same_place(x, e));
        }
    }
    out
}

/// Names that a listing leaves out: noisy, and of no use to browse.
pub open spec fn is_hidden(name: Seq<char>) -> bool {
    name == ".git"@ || name == "node_modules"@ || name == "target"@
}

/// The entries to list, as found: not the hidden ones, nor those of which
/// nothing could be learned.
pub open spec fn shown(found: Seq<FoundEntry>) -> Seq<FileEntry>
    decreases found.len(),
{
    if found.len() == 0 {
        Seq::empty()
    } else {
        let before = shown(found.drop_last());
        let last = found.last();
        match last.meta {
            Some(meta) if !is_hidden(last.name@) => before.push(
                FileEntry { name: last.name, is_dir: meta.is_dir, size: meta.len },
            ),
            _ => before,
        }
    }
}

/// An entry as JSON.
pub open spec fn entry_model(e: FileEntry) -> JsonModel {
    empty_object().with("name"@, JsonModel::Text(e.name@)).with(
        "is_dir"@,
        JsonModel::Bool(e.is_dir),
    ).with("size"@, JsonModel::Number(number_model(e.size)))
}

/// The reply to a request for a directory.
pub open spec fn listing_reply(path: Seq<char>, entries: Seq<FileEntry>) -> JsonModel {
    empty_object().with("path"@, JsonModel::Text(path)).with(
        "entries"@,
        JsonModel::Array(entries.map_values(|e: FileEntry| entry_model(e))),
    )
}

/// Whether `reply` tells of the directory `path` in which `found` was found: of
/// what is shown of that, as a listing.
pub open spec fn is_directory_reply(
    path: Seq<char>,
    found: Seq<FoundEntry>,
    reply: JsonModel,
) -> bool {
    exists|listed: Seq<FileEntry>| #[trigger]
        is_listing_of(listed, shown(found)) && reply == listing_reply(path, listed)
}

fn hidden(name: &str) -> (r: bool)
    ensures
        r == is_hidden(name@),
{
    same_text(name, ".git") || same_text(name, "node_modules") || same_text(name, "target")
}

fn keep_shown(found: &Vec<FoundEntry>) -> (r: Vec<FileEntry>)
    ensures
        r@ == shown(found@),
{
    let mut out: Vec<FileEntry> = Vec::new();
    let mut i: usize = 0;
    proof {
        assert(found@.take(0) =~= Seq::empty());
    }
    while i < found.len()
        invariant
            i <= found@.len(),
            out@ == shown(found@.take(i as int)),
        decreases found.len() - i,
    {
        proof {
            assert(found@.take(i + 1).drop_last() =~= found@.take(i as int));
            assert(found@.take(i + 1).last() == found@[i as int]);
        }
        let next = &found[i];
        match next.meta {
            Some(meta) => {
                if !hidden(next.name.as_str()) {
                    out.push(
                        FileEntry { name: next.name.clone(), is_dir: meta.is_dir, size: meta.len },
                    );
                }
            },
            None => {},
        }
        i = i + 1;
    }
    proof {
        assert(found@.take(i as int) =~= found@);
    }
    out
}

fn entry_json(e: &FileEntry) -> (r: Json)
    ensures
        r@ == entry_model(*e),
{
    Json::object().with("name", Json::text_of(e.name.as_str())).with(
        "is_dir",
        Json::Bool(e.is_dir),
    ).with("size", json_number(e.size))
}

fn entries_json(entries: &Vec<FileEntry>) -> (r: Json)
    ensures
        r@ == JsonModel::Array(entries@.map_values(|e: FileEntry| entry_model(e))),
{
    let ghost f = |e: FileEntry| entry_model(e);
    let mut items: Vec<Json> = Vec::new();
    let mut i: usize = 0;
    proof {
        assert(items_model(items@) =~= entries@.take(0).map_values(f));
    }
    while i < entries.len()
        invariant
            i <= entries@.len(),
            f == (|e: FileEntry| entry_model(e)),
            items_model(items@) == entries@.take(i as int).map_values(f),
        decreases entries.len() - i,
    {
        let ghost before = items@;
        let item = entry_json(&entries[i]);
        items.push(item);
        proof {
            assert(items@.drop_last() =~= before);
            assert(entries@.take(i + 1).map_values(f) =~= entries@.take(i as int).map_values(
                f,
            ).push(f(entries@[i as int])));
        }
        i = i + 1;
    }
    proof {
        assert(entries@.take(i as int) =~= entries@);
    }
    Json::Array(items)
}

/// Whether what was asked for can be listed.
pub open spec fn directory_model(meta: Option<EntryMeta>) -> Result<(), ApiErrorModel> {
    match meta {
        None => Err(api_error_model(404, "not_found"@)),
        Some(m) => if m.is_dir {
            Ok(())
        } else {
            Err(api_error_model(400, "not_a_directory"@))
        },
    }
}

/// The answer where a directory or a file could not be read for a reason.
pub open spec fn unreadable_model(reason: Seq<char>) -> ApiErrorModel {
    api_error_model(500, reason)
}

/// Whether a directory was asked for: `meta` is what the path leads to, if it
/// leads anywhere.
pub fn check_directory(meta: Option<EntryMeta>) -> (r: Result<(), ApiError>)
    ensures
        (match r {
            Ok(()) => Ok(()),
            Err(e) => Err(e@),
        }) == directory_model(meta),
{
    match meta {
        None => Err(api_error(404, "not_found")),
        Some(m) => if m.is_dir {
            Ok(())
        } else {
            Err(api_error(400, "not_a_directory"))
        },
    }
}

/// The reply to a request for the directory `path`, in which `found` was
/// found, or which could not be read for the reason given.
pub fn list_files(path: &str, found: Result<Vec<FoundEntry>, String>) -> (r: Result<
    Json,
    ApiError,
>)
    ensures
        match found {
            Ok(entries) => r is Ok && is_directory_reply(path@, entries@, (r->Ok_0)@),
            Err(reason) => answer_model(r) == Err::<JsonModel, ApiErrorModel>(
                unreadable_model(reason@),
            ),
        },
{
    match found {
        Ok(entries) => {
            let listed = sort_entries(keep_shown(&entries));
            proof {
                assert(is_listing_of(listed@, shown(entries@)));
            }
            Ok(
                Json::object().with("path", Json::text_of(path)).with(
                    "entries",
                    entries_json(&listed),
                ),
            )
        },
        Err(reason) => Err(api_error(500, reason.as_str())),
    }
}

/// The largest file whose content is sent: large enough for source files,
/// small enough that a misclick on a log does not ship megabytes.
pub const MAX_FILE_PREVIEW_BYTES: u64 = 256 * 1024;

/// What to do about a file that was asked for.
#[derive(Debug, PartialEq)]
pub enum Preview {
    /// Answer with this error.
    Refuse(ApiError),
    /// Answer with this message in place of the content.
    Tell(Json),
    /// Read the file.
    Read,
}

pub enum PreviewModel {
    Refuse(ApiErrorModel),
    Tell(JsonModel),
    Read,
}

impl View for Preview {
    type V = PreviewModel;

    open spec fn view(&self) -> PreviewModel {
        match self {
            Preview::Refuse(e) => PreviewModel::Refuse(e@),
            Preview::Tell(j) => PreviewModel::Tell(j@),
            Preview::Read => PreviewModel::Read,
        }
    }
}

/// A reply about a file that holds a message in place of its content.
pub open spec fn message_reply(path: Seq<char>, size: u64, message: Seq<char>) -> JsonModel {
    empty_object().with("path"@, JsonModel::Text(path)).with(
        "size"@,
        JsonModel::Number(number_model(size)),
    ).with("content"@, JsonModel::Null).with("message"@, JsonModel::Text(message))
}

/// A reply that holds a file's content.
pub open spec fn content_reply(path: Seq<char>, size: u64, content: Seq<char>) -> JsonModel {
    empty_object().with("path"@, JsonModel::Text(path)).with(
        "size"@,
        JsonModel::Number(number_model(size)),
    ).with("content"@, JsonModel::Text(content))
}

/// What is said of a file over the limit.
pub open spec fn too_large_message(size: u64) -> Seq<char> {
    decimal_model(size as nat) + " bytes — larger than the "@ + decimal_model(
        (MAX_FILE_PREVIEW_BYTES / 1024) as nat,
    ) + "KB preview limit."@
}

fn message_json(path: &str, size: u64, message: &str) -> (r: Json)
    ensures
        r@ == message_reply(path@, size, message@),
{
    Json::object().with("path", Json::text_of(path)).with("size", json_number(size)).with(
        "content",
        Json::Null,
    ).with("message", Json::text_of(message))
}

/// What to do about the file `path`, given what it leads to, if anywhere.
pub open spec fn check_file_model(path: Seq<char>, meta: Option<EntryMeta>) -> PreviewModel {
    match meta {
        None => PreviewModel::Refuse(api_error_model(404, "not_found"@)),
        Some(m) => if m.is_dir {
            PreviewModel::Refuse(api_error_model(400, "is_a_directory"@))
        } else if m.len > MAX_FILE_PREVIEW_BYTES {
            PreviewModel::Tell(message_reply(path, m.len, too_large_message(m.len)))
        } else {
            PreviewModel::Read
        },
    }
}

/// What to do about the file `path`, given what it leads to, if anywhere.
pub fn check_file(path: &str, meta: Option<EntryMeta>) -> (r: Preview)
    ensures
        r@ == check_file_model(path@, meta),
{
    match meta {
        None => Preview::Refuse(api_error(404, "not_found")),
        Some(m) => if m.is_dir {
            Preview::Refuse(api_error(400, "is_a_directory"))
        } else if m.len > MAX_FILE_PREVIEW_BYTES {
            let mut message = join3(
                decimal(m.len).as_str(),
                " bytes — larger than the ",
                decimal(MAX_FILE_PREVIEW_BYTES / 1024).as_str(),
            );
            message.append("KB preview limit.");
            Preview::Tell(message_json(path, m.len, message.as_str()))
        } else {
            Preview::Read
        },
    }
}

/// `String::from_utf8`: the text that the bytes encode, or nothing where they
/// are not valid UTF-8.
#[verifier::external_body]
fn text_from_utf8(bytes: Vec<u8>) -> (r: Option<String>)
    ensures
        match r {
            Some(s) => valid_utf8(bytes@) && s@ == decode_utf8(bytes@),
            None => !valid_utf8(bytes@),
        },
{
    String::from_utf8(bytes).ok()
}

/// The reply about the file `path` of `size` bytes in which `bytes` were read.
pub open spec fn file_reply(path: Seq<char>, size: u64, bytes: Seq<u8>) -> JsonModel {
    if valid_utf8(bytes) {
        content_reply(path, size, decode_utf8(bytes))
    } else {
        message_reply(path, size, "Binary file — not shown."@)
    }
}

/// The answer to a request for the file `path` of `size` bytes, given what was
/// read of it, or why nothing was.
pub open spec fn content_answer(
    path: Seq<char>,
    size: u64,
    read: Result<Seq<u8>, Seq<char>>,
) -> Result<JsonModel, ApiErrorModel> {
    match read {
        Ok(bytes) => Ok(file_reply(path, size, bytes)),
        Err(reason) => Err(unreadable_model(reason)),
    }
}

/// The reply to a request for the file `path` of `size` bytes: its content,
/// or a message where it is not text, or an error where it could not be read
/// for the reason given.
pub fn read_file_content(path: &str, size: u64, bytes: Result<Vec<u8>, String>) -> (r: Result<
    Json,
    ApiError,
>)
    ensures
        answer_model(r) == content_answer(
            path@,
            size,
            match bytes {
                Ok(b) => Ok(b@),
                Err(reason) => Err(reason@),
            },
        ),
{
    match bytes {
        Ok(b) => match text_from_utf8(b) {
            Some(content) => Ok(
                Json::object().with("path", Json::text_of(path)).with(
                    "size",
                    json_number(size),
                ).with("content", Json::Text(content)),
            ),
            None => Ok(message_json(path, size, "Binary file — not shown.")),
        },
        Err(reason) => Err(api_error(500, reason.as_str())),
    }
}

proof fn lemma_count_at_place(s: Seq<FileEntry>, e: FileEntry)
    ensures
        s.to_multiset().count(e) == at_place(s, e).to_multiset().count(e),
    decreases s.len(),
{
    broadcast use vstd::seq_lib::group_to_multiset_ensures;

    reveal(Seq::filter);
    if s.len() > 0 {
        let front = s.drop_last();
        lemma_count_at_place(front, e);
        assert(s =~= front.push(s.last()));
    } else {
        assert(at_place(s, e) =~= s);
    }
}

/// A listing neither loses nor adds an entry.
pub proof fn law_listing_keeps_the_entries(out: Seq<FileEntry>, input: Seq<FileEntry>)
    requires
        is_listing_of(out, input),
    ensures
        out.to_multiset() == input.to_multiset(),
{
    assert forall|e: FileEntry| out.to_multiset().count(e) == input.to_multiset().count(e) by {
        lemma_count_at_place(out, e);
        lemma_count_at_place(input, e);
        assert(at_place(out, e) == at_place(input, e));
    }
    assert(out.to_multiset() =~= input.to_multiset());
}

proof fn lemma_at_place_has(s: Seq<FileEntry>, e: FileEntry)
    requires
        at_place(s, e).len() > 0,
    ensures
        exists|i: int| 0 <= i < s.len() && same_place(#[trigger] s[i], e),
{
    if forall|i: int| 0 <= i < s.len() ==> !same_place(#[trigger] s[i], e) {
        lemma_at_place_none(s, e);
    }
}

/// The order of a listing leaves nothing open: two listings of the same
/// entries are the same.
pub proof fn law_listing_is_determined(
    one: Seq<FileEntry>,
    other: Seq<FileEntry>,
    input: Seq<FileEntry>,
)
    requires
        is_listing_of(one, input),
        is_listing_of(other, input),
    ensures
        one == other,
{
    assert forall|e: FileEntry| #[trigger] at_place(one, e) == at_place(other, e) by {
        assert(at_place(one, e) == at_place(input, e));
        assert(at_place(other, e) == at_place(input, e));
    }
    lemma_in_order_unique(one, other);
}

proof fn lemma_in_order_unique(one: Seq<FileEntry>, other: Seq<FileEntry>)
    requires
        in_order(one),
        in_order(other),
        forall|e: FileEntry| #[trigger] at_place(one, e) == at_place(other, e),
    ensures
        one == other,
    decreases one.len(),
{
    reveal(Seq::filter);
    if one.len() == 0 || other.len() == 0 {
        if one.len() > 0 {
            assert(at_place(one, one.last()) == at_place(other, one.last()));
            lemma_at_place_none(other, one.last());
            assert(at_place(one, one.last()).len() > 0);
        }
        if other.len() > 0 {
            assert(at_place(one, other.last()) == at_place(other, other.last()));
            lemma_at_place_none(one, other.last());
            assert(at_place(other, other.last()).len() > 0);
        }
        assert(one =~= other);
    } else {
        let x = one.last();
        let y = other.last();
        assert(at_place(one, x).last() == x);
        assert(at_place(other, y).last() == y);
        assert(at_place(one, x) == at_place(other, x));
        assert(at_place(one, y) == at_place(other, y));
        lemma_at_place_has(other, x);
        lemma_at_place_has(one, y);
        let i = choose|i: int| 0 <= i < other.len() && same_place(#[trigger] other[i], x);
        let j = choose|j: int| 0 <= j < one.len() && same_place(#[trigger] one[j], y);
        assert(!entry_before(y, x)) by {
            if i < other.len() - 1 {
                assert(!entry_before(other[other.len() - 1], other[i]));
            } else {
                lemma_entry_order(y, x, x);
            }
            lemma_text_order(x.name@, x.name@);
        }
        assert(!entry_before(x, y)) by {
            if j < one.len() - 1 {
                assert(!entry_before(one[one.len() - 1], one[j]));
            } else {
                lemma_entry_order(x, y, y);
            }
            lemma_text_order(y.name@, y.name@);
        }
        lemma_entry_order(x, y, x);
        assert(same_place(x, y));
        assert(x == y);
        assert forall|e: FileEntry|
            #[trigger] at_place(one.drop_last(), e) == at_place(other.drop_last(), e) by {
            assert(at_place(one, e) == at_place(other, e));
            if same_place(x, e) {
                assert(at_place(one, e).drop_last() =~= at_place(one.drop_last(), e));
                assert(at_place(other, e).drop_last() =~= at_place(other.drop_last(), e));
            }
        }
        lemma_in_order_unique(one.drop_last(), other.drop_last());
        assert(one =~= one.drop_last().push(x));
        assert(other =~= other.drop_last().push(y));
    }
}

/// A listing puts its directories before its files.
pub proof fn law_directories_come_first(out: Seq<FileEntry>, input: Seq<FileEntry>, i: int, j: int)
    requires
        is_listing_of(out, input),
        0 <= i < j < out.len(),
        out[j].is_dir,
    ensures
        out[i].is_dir,
{
    assert(!entry_before(out[j], out[i]));
}

/// No listing shows a hidden name.
pub proof fn law_hidden_names_are_not_listed(out: Seq<FileEntry>, found: Seq<FoundEntry>, i: int)
    requires
        is_listing_of(out, shown(found)),
        0 <= i < out.len(),
    ensures
        !is_hidden(out[i].name@),
{
    let e = out[i];
    law_listing_keeps_the_entries(out, shown(found));
    out.to_multiset_ensures();
    shown(found).to_multiset_ensures();
    assert(out.to_multiset().contains(e));
    assert(shown(found).contains(e));
    let k = choose|k: int| 0 <= k < shown(found).len() && shown(found)[k] == e;
    lemma_shown_are_not_hidden(found, k);
}

proof fn lemma_shown_are_not_hidden(found: Seq<FoundEntry>, k: int)
    requires
        0 <= k < shown(found).len(),
    ensures
        !is_hidden(shown(found)[k].name@),
    decreases found.len(),
{
    if found.len() > 0 {
        let before = shown(found.drop_last());
        if k < before.len() {
            lemma_shown_are_not_hidden(found.drop_last(), k);
        }
    }
}

/// A name that a listing may show.
spec fn may_be_shown(f: FoundEntry) -> bool {
    &&& f.meta is Some
    &&& f.name@ != ".git"@
    &&& f.name@ != "node_modules"@
    &&& f.name@ != "target"@
}

/// Every entry of which something is known stands in the listing, but for the
/// three names: with its own name, whether it is a directory, and its size,
/// whatever these are.
pub proof fn law_every_other_entry_is_listed(
    out: Seq<FileEntry>,
    found: Seq<FoundEntry>,
    i: int,
    m: EntryMeta,
)
    requires
        is_listing_of(out, shown(found)),
        0 <= i < found.len(),
        found[i].meta == Some(m),
        found[i].name@ != ".git"@,
        found[i].name@ != "node_modules"@,
        found[i].name@ != "target"@,
    ensures
        out.contains(FileEntry { name: found[i].name, is_dir: m.is_dir, size: m.len }),
{
    let e = FileEntry { name: found[i].name, is_dir: m.is_dir, size: m.len };
    lemma_shown_has(found, i, m);
    law_listing_keeps_the_entries(out, shown(found));
    out.to_multiset_ensures();
    shown(found).to_multiset_ensures();
    assert(shown(found).to_multiset().contains(e));
    assert(out.to_multiset().contains(e));
}

proof fn lemma_shown_has(found: Seq<FoundEntry>, i: int, m: EntryMeta)
    requires
        0 <= i < found.len(),
        found[i].meta == Some(m),
        !is_hidden(found[i].name@),
    ensures
        shown(found).contains(FileEntry { name: found[i].name, is_dir: m.is_dir, size: m.len }),
    decreases found.len(),
{
    let e = FileEntry { name: found[i].name, is_dir: m.is_dir, size: m.len };
    let front = found.drop_last();
    if i == found.len() - 1 {
        assert(shown(found).last() == e);
    } else {
        assert(front[i] == found[i]);
        lemma_shown_has(front, i, m);
        let k = choose|k: int| 0 <= k < shown(front).len() && shown(front)[k] == e;
        assert(shown(found)[k] == e);
    }
}

/// A listing holds as many entries as were found and may be shown, so that
/// none stands in it twice and none comes from nowhere.
pub proof fn law_a_listing_is_as_long_as_what_is_found(
    out: Seq<FileEntry>,
    found: Seq<FoundEntry>,
)
    requires
        is_listing_of(out, shown(found)),
    ensures
        out.len() == found.filter(
            |f: FoundEntry|
                f.meta is Some && f.name@ != ".git"@ && f.name@ != "node_modules"@ && f.name@
                    != "target"@,
        ).len(),
{
    law_listing_keeps_the_entries(out, shown(found));
    out.to_multiset_ensures();
    shown(found).to_multiset_ensures();
    let p = |f: FoundEntry|
        f.meta is Some && f.name@ != ".git"@ && f.name@ != "node_modules"@ && f.name@ != "target"@;
    lemma_shown_count(found, p);
}

/// A listing is made of what was found, entry for entry: those of which
/// something is known and which have none of the three names, each as often as
/// it was found.
pub proof fn law_a_listing_is_made_of_what_is_found(out: Seq<FileEntry>, found: Seq<FoundEntry>)
    requires
        is_listing_of(out, shown(found)),
    ensures
        out.to_multiset() == found.filter(
            |f: FoundEntry|
                f.meta is Some && f.name@ != ".git"@ && f.name@ != "node_modules"@ && f.name@
                    != "target"@,
        ).map_values(
            |f: FoundEntry|
                FileEntry { name: f.name, is_dir: f.meta->0.is_dir, size: f.meta->0.len },
        ).to_multiset(),
{
    law_listing_keeps_the_entries(out, shown(found));
    let p = |f: FoundEntry|
        f.meta is Some && f.name@ != ".git"@ && f.name@ != "node_modules"@ && f.name@ != "target"@;
    let entry = |f: FoundEntry|
        FileEntry { name: f.name, is_dir: f.meta->0.is_dir, size: f.meta->0.len };
    lemma_shown_is(found, p, entry);
}

proof fn lemma_shown_is(
    found: Seq<FoundEntry>,
    p: spec_fn(FoundEntry) -> bool,
    entry: spec_fn(FoundEntry) -> FileEntry,
)
    requires
        forall|f: FoundEntry| p(f) == may_be_shown(f),
        forall|f: FoundEntry|
            entry(f) == (FileEntry {
                name: f.name,
                is_dir: f.meta->0.is_dir,
                size: f.meta->0.len,
            }),
    ensures
        shown(found) == found.filter(p).map_values(entry),
    decreases found.len(),
{
    reveal(Seq::filter);
    if found.len() > 0 {
        let front = found.drop_last();
        lemma_shown_is(front, p, entry);
        assert(p(found.last()) == may_be_shown(found.last()));
        if p(found.last()) {
            assert(found.filter(p) == front.filter(p).push(found.last()));
            assert(front.filter(p).push(found.last()).map_values(entry) =~= front.filter(
                p,
            ).map_values(entry).push(entry(found.last())));
        }
    } else {
        assert(shown(found) =~= found.filter(p).map_values(entry));
    }
}

proof fn lemma_shown_count(found: Seq<FoundEntry>, p: spec_fn(FoundEntry) -> bool)
    requires
        forall|f: FoundEntry| p(f) == may_be_shown(f),
    ensures
        shown(found).len() == found.filter(p).len(),
    decreases found.len(),
{
    reveal(Seq::filter);
    if found.len() > 0 {
        lemma_shown_count(found.drop_last(), p);
        assert(p(found.last()) == may_be_shown(found.last()));
    }
}

/// Every entry of a listing was found: under its name, as a directory or not,
/// and with its size; and it has none of the three names.
pub proof fn law_listed_entries_were_found(out: Seq<FileEntry>, found: Seq<FoundEntry>, k: int)
    requires
        is_listing_of(out, shown(found)),
        0 <= k < out.len(),
    ensures
        exists|i: int|
            0 <= i < found.len() && (#[trigger] found[i]).name@ == out[k].name@ && found[i].meta
                == Some(EntryMeta { is_dir: out[k].is_dir, len: out[k].size }),
        out[k].name@ != ".git"@,
        out[k].name@ != "node_modules"@,
        out[k].name@ != "target"@,
{
    let e = out[k];
    law_hidden_names_are_not_listed(out, found, k);
    law_listing_keeps_the_entries(out, shown(found));
    out.to_multiset_ensures();
    shown(found).to_multiset_ensures();
    assert(out.to_multiset().contains(e));
    assert(shown(found).contains(e));
    let at = choose|at: int| 0 <= at < shown(found).len() && shown(found)[at] == e;
    lemma_shown_from(found, at);
}

proof fn lemma_shown_from(found: Seq<FoundEntry>, k: int)
    requires
        0 <= k < shown(found).len(),
    ensures
        exists|i: int|
            0 <= i < found.len() && (#[trigger] found[i]).name@ == shown(found)[k].name@
                && found[i].meta == Some(
                EntryMeta { is_dir: shown(found)[k].is_dir, len: shown(found)[k].size },
            ),
    decreases found.len(),
{
    if found.len() > 0 {
        let front = found.drop_last();
        let e = shown(found)[k];
        if k < shown(front).len() {
            lemma_shown_from(front, k);
            let i = choose|i: int|
                0 <= i < front.len() && (#[trigger] front[i]).name@ == e.name@ && front[i].meta
                    == Some(EntryMeta { is_dir: e.is_dir, len: e.size });
            assert(found[i].name@ == e.name@);
        } else {
            assert(found[found.len() - 1].name@ == e.name@);
        }
    }
}

proof fn lemma_text_before_by_prefix(a: Seq<char>, b: Seq<char>, n: int)
    requires
        0 <= n <= a.len(),
        n <= b.len(),
        forall|k: int| 0 <= k < n ==> a[k] == b[k],
        n < b.len(),
        n == a.len() || a[n] < b[n],
    ensures
        text_before(a, b),
    decreases n,
{
    if n > 0 {
        assert forall|k: int| 0 <= k < n - 1 implies a.skip(1)[k] == b.skip(1)[k] by {
            assert(a[k + 1] == b[k + 1]);
        }
        lemma_text_before_by_prefix(a.skip(1), b.skip(1), n - 1);
    }
}

/// Of two directories, and of two files, the one whose name is smaller stands
/// first: where the names part, the smaller character decides, and a name that
/// goes on stands after one that ends there.
pub proof fn law_names_come_in_order(
    out: Seq<FileEntry>,
    input: Seq<FileEntry>,
    i: int,
    j: int,
    n: int,
)
    requires
        is_listing_of(out, input),
        0 <= i < out.len(),
        0 <= j < out.len(),
        out[i].is_dir == out[j].is_dir,
        0 <= n <= out[i].name@.len(),
        n < out[j].name@.len(),
        forall|k: int| 0 <= k < n ==> out[i].name@[k] == out[j].name@[k],
        n == out[i].name@.len() || out[i].name@[n] < out[j].name@[n],
    ensures
        i < j,
{
    lemma_text_before_by_prefix(out[i].name@, out[j].name@, n);
    lemma_text_order(out[i].name@, out[j].name@);
    assert(entry_before(out[i], out[j]));
    if j < i {
        assert(!entry_before(out[i], out[j]));
    }
}

/// Of a directory and a file the directory stands first, whatever their names.
pub proof fn law_a_directory_precedes_a_file(
    out: Seq<FileEntry>,
    input: Seq<FileEntry>,
    i: int,
    j: int,
)
    requires
        is_listing_of(out, input),
        0 <= i < out.len(),
        0 <= j < out.len(),
        out[i].is_dir,
        !out[j].is_dir,
    ensures
        i < j,
{
    assert(entry_before(out[i], out[j]));
    if j < i {
        assert(!entry_before(out[i], out[j]));
    }
}

/// Entries with one name and of one kind stand as they stood.
pub proof fn law_equal_entries_stay_as_they_stood(
    out: Seq<FileEntry>,
    input: Seq<FileEntry>,
    e: FileEntry,
)
    requires
        is_listing_of(out, input),
    ensures
        out.filter(|x: FileEntry| x.is_dir == e.is_dir && x.name@ == e.name@) == input.filter(
            |x: FileEntry| x.is_dir == e.is_dir && x.name@ == e.name@,
        ),
{
    let p = |x: FileEntry| x.is_dir == e.is_dir && x.name@ == e.name@;
    let q = |x: FileEntry| same_place(x, e);
    assert(p =~= q);
    assert(at_place(out, e) == at_place(input, e));
}

proof fn lemma_reply_keys()
    ensures
        "name"@ != "is_dir"@,
        "name"@ != "size"@,
        "is_dir"@ != "size"@,
        "path"@ != "entries"@,
        "path"@ != "size"@,
        "path"@ != "content"@,
        "path"@ != "message"@,
        "size"@ != "content"@,
        "size"@ != "message"@,
        "content"@ != "message"@,
{
    reveal_strlit("name");
    reveal_strlit("is_dir");
    reveal_strlit("size");
    reveal_strlit("path");
    reveal_strlit("entries");
    reveal_strlit("content");
    reveal_strlit("message");
    assert("name"@.len() != "is_dir"@.len());
    assert("name"@[0] != "size"@[0]);
    assert("is_dir"@.len() != "size"@.len());
    assert("path"@.len() != "entries"@.len());
    assert("path"@[0] != "size"@[0]);
    assert("path"@.len() != "content"@.len());
    assert("path"@.len() != "message"@.len());
    assert("size"@.len() != "content"@.len());
    assert("size"@.len() != "message"@.len());
    assert("content"@[0] != "message"@[0]);
}

/// The reply to a request for a directory names the path that was asked for and
/// tells of each entry, in order, its name, whether it is a directory, and its
/// size.
pub proof fn law_a_listing_tells_each_entry(path: Seq<char>, entries: Seq<FileEntry>)
    ensures
        listing_reply(path, entries).text_member("path"@) == Some(path),
        listing_reply(path, entries).member("entries"@) is Some,
        ({
            let told = (listing_reply(path, entries).member("entries"@)->0).items();
            &&& told is Some
            &&& (told->0).len() == entries.len()
            &&& forall|i: int|
                #![trigger entries[i]]
                0 <= i < entries.len() ==> {
                    &&& (told->0)[i].text_member("name"@) == Some(entries[i].name@)
                    &&& (told->0)[i].member("is_dir"@) == Some(JsonModel::Bool(entries[i].is_dir))
                    &&& (told->0)[i].member("size"@) == Some(
                        JsonModel::Number(number_model(entries[i].size)),
                    )
                    &&& forall|k: Seq<char>| #[trigger]
                        (told->0)[i].member(k) is Some ==> k == "name"@ || k == "is_dir"@ || k
                            == "size"@
                }
        }),
        forall|k: Seq<char>|
            listing_reply(path, entries).member(k) is Some ==> k == "path"@ || k == "entries"@,
{
    lemma_reply_keys();
}

/// Directories are listed and nothing else is: what is not there is not found,
/// and a file is refused, whatever their sizes.
pub proof fn law_only_directories_are_listed(m: EntryMeta)
    ensures
        directory_model(Some(m)) is Ok <==> m.is_dir,
        !m.is_dir ==> {
            &&& directory_model(Some(m))->Err_0.status == 400
            &&& directory_model(Some(m))->Err_0.body.text_member("error"@) == Some(
                "not_a_directory"@,
            )
        },
        directory_model(None) is Err,
        directory_model(None)->Err_0.status == 404,
        directory_model(None)->Err_0.body.text_member("error"@) == Some("not_found"@),
{
}

/// What could not be read is answered as the server's failure, for the reason
/// that the system gave.
pub proof fn law_what_cannot_be_read_says_why(reason: Seq<char>)
    ensures
        unreadable_model(reason).status == 500,
        unreadable_model(reason).body.text_member("error"@) == Some(reason),
{
}

/// A file is read exactly where it is no larger than a quarter of a mebibyte; a
/// larger one is told of by its path, its size and a message that names the
/// size, with no content; a directory and what is not there are refused.
pub proof fn law_files_are_read_within_the_limit(path: Seq<char>, m: EntryMeta)
    ensures
        check_file_model(path, Some(m)) is Read <==> !m.is_dir && m.len <= 262144,
        !m.is_dir && m.len > 262144 ==> {
            &&& check_file_model(path, Some(m)) matches PreviewModel::Tell(j)
            &&& j.text_member("path"@) == Some(path)
            &&& j.member("size"@) == Some(JsonModel::Number(number_model(m.len)))
            &&& j.member("content"@) == Some(JsonModel::Null)
            &&& j.text_member("message"@) is Some
            &&& j.text_member("message"@)->0 == decimal_model(m.len as nat)
                + " bytes — larger than the 256KB preview limit."@
            &&& forall|k: Seq<char>|
                j.member(k) is Some ==> k == "path"@ || k == "size"@ || k == "content"@ || k
                    == "message"@
        },
        m.is_dir ==> {
            &&& check_file_model(path, Some(m)) matches PreviewModel::Refuse(e)
            &&& e.status == 400
            &&& e.body.text_member("error"@) == Some("is_a_directory"@)
        },
        ({
            &&& check_file_model(path, None) matches PreviewModel::Refuse(e)
            &&& e.status == 404
            &&& e.body.text_member("error"@) == Some("not_found"@)
        }),
{
    lemma_reply_keys();
    reveal_strlit(" bytes — larger than the ");
    reveal_strlit("KB preview limit.");
    reveal_strlit(" bytes — larger than the 256KB preview limit.");
    reveal_with_fuel(decimal_model, 4);
    assert(decimal_model(256) =~= seq!['2', '5', '6']);
    let words = " bytes — larger than the 256KB preview limit."@;
    assert(words =~= " bytes — larger than the "@ + decimal_model(256) + "KB preview limit."@);
    assert(too_large_message(m.len) =~= decimal_model(m.len as nat) + words);
}

/// The content that is sent of a text is what its bytes encode, all of it; of
/// bytes that encode no text none is sent, and a message says so. Path and size
/// are told either way.
pub proof fn law_a_text_is_sent_whole(path: Seq<char>, size: u64, bytes: Seq<u8>)
    ensures
        file_reply(path, size, bytes).text_member("path"@) == Some(path),
        file_reply(path, size, bytes).member("size"@) == Some(
            JsonModel::Number(number_model(size)),
        ),
        valid_utf8(bytes) ==> {
            &&& file_reply(path, size, bytes).text_member("content"@) == Some(decode_utf8(bytes))
            &&& file_reply(path, size, bytes).member("message"@) is None
        },
        !valid_utf8(bytes) ==> {
            &&& file_reply(path, size, bytes).member("content"@) == Some(JsonModel::Null)
            &&& file_reply(path, size, bytes).text_member("message"@) == Some(
                "Binary file — not shown."@,
            )
        },
        forall|k: Seq<char>|
            file_reply(path, size, bytes).member(k) is Some ==> k == "path"@ || k == "size"@ || k
                == "content"@ || k == "message"@,
{
    lemma_reply_keys();
}

/// Nothing of what is done about a file is left out of what is said of it.
pub proof fn law_previews_are_told_apart(a: Preview, b: Preview)
    requires
        a@ == b@,
    ensures
        match (a, b) {
            (Preview::Refuse(x), Preview::Refuse(y)) => x@ == y@,
            (Preview::Tell(x), Preview::Tell(y)) => x@ == y@,
            (Preview::Read, Preview::Read) => true,
            _ => false,
        },
{
}

/// The reply to a request for a directory tells of its path and of every entry
/// that may be shown, each with its own name, kind and size; of no more than
/// were found; and of directories first.
pub proof fn law_a_directory_is_told_whole(
    path: Seq<char>,
    found: Seq<FoundEntry>,
    reply: JsonModel,
)
    requires
        is_directory_reply(path, found, reply),
    ensures
        reply.text_member("path"@) == Some(path),
        reply.member("entries"@) matches Some(JsonModel::Array(told)) && {
            &&& told.len() == found.filter(
                |f: FoundEntry|
                    f.meta is Some && f.name@ != ".git"@ && f.name@ != "node_modules"@ && f.name@
                        != "target"@,
            ).len()
            &&& forall|i: int|
                #![trigger found[i]]
                0 <= i < found.len() && found[i].meta is Some && found[i].name@ != ".git"@
                    && found[i].name@ != "node_modules"@ && found[i].name@ != "target"@
                    ==> exists|k: int|
                    #![trigger told[k]]
                    0 <= k < told.len() && told[k].text_member("name"@) == Some(found[i].name@)
                        && told[k].member("is_dir"@) == Some(
                        JsonModel::Bool(found[i].meta->0.is_dir),
                    ) && told[k].member("size"@) == Some(
                        JsonModel::Number(number_model(found[i].meta->0.len)),
                    )
            &&& forall|a: int, b: int|
                #![trigger told[a], told[b]]
                0 <= a < b < told.len() && told[b].member("is_dir"@) == Some(JsonModel::Bool(true))
                    ==> told[a].member("is_dir"@) == Some(JsonModel::Bool(true))
        },
{
    let listed = choose|listed: Seq<FileEntry>| #[trigger]
        is_listing_of(listed, shown(found)) && reply == listing_reply(path, listed);
    law_a_listing_tells_each_entry(path, listed);
    law_a_listing_is_as_long_as_what_is_found(listed, found);
    let told = (reply.member("entries"@)->0)->Array_0;
    assert forall|i: int|
        #![trigger found[i]]
        0 <= i < found.len() && found[i].meta is Some && found[i].name@ != ".git"@ && found[i].name@
            != "node_modules"@ && found[i].name@ != "target"@ implies exists|k: int|
        #![trigger told[k]]
        0 <= k < told.len() && told[k].text_member("name"@) == Some(found[i].name@)
            && told[k].member("is_dir"@) == Some(JsonModel::Bool(found[i].meta->0.is_dir))
            && told[k].member("size"@) == Some(
            JsonModel::Number(number_model(found[i].meta->0.len)),
        ) by {
        let m = found[i].meta->0;
        law_every_other_entry_is_listed(listed, found, i, m);
        let e = FileEntry { name: found[i].name, is_dir: m.is_dir, size: m.len };
        let k = choose|k: int| 0 <= k < listed.len() && listed[k] == e;
        assert(listed[k].name@ == found[i].name@);
        assert(told[k].text_member("name"@) == Some(listed[k].name@));
    }
    assert forall|a: int, b: int|
        #![trigger told[a], told[b]]
        0 <= a < b < told.len() && told[b].member("is_dir"@) == Some(
            JsonModel::Bool(true),
        ) implies told[a].member("is_dir"@) == Some(JsonModel::Bool(true)) by {
        assert(told[b].member("is_dir"@) == Some(JsonModel::Bool(listed[b].is_dir)));
        assert(told[a].member("is_dir"@) == Some(JsonModel::Bool(listed[a].is_dir)));
        law_directories_come_first(listed, shown(found), a, b);
    }
}

/// A file that was read is answered with its content where that is text, and
/// with word that it is not otherwise, never with an error; one that could not
/// be read is answered with the reason.
pub proof fn law_a_file_is_answered_by_its_bytes(
    path: Seq<char>,
    size: u64,
    bytes: Seq<u8>,
    reason: Seq<char>,
)
    ensures
        content_answer(path, size, Ok(bytes)) is Ok,
        valid_utf8(bytes) ==> (content_answer(path, size, Ok(bytes))->Ok_0).text_member(
            "content"@,
        ) == Some(decode_utf8(bytes)),
        !valid_utf8(bytes) ==> (content_answer(path, size, Ok(bytes))->Ok_0).member("content"@)
            == Some(JsonModel::Null),
        (content_answer(path, size, Ok(bytes))->Ok_0).text_member("path"@) == Some(path),
        (content_answer(path, size, Ok(bytes))->Ok_0).member("size"@) == Some(
            JsonModel::Number(number_model(size)),
        ),
        content_answer(path, size, Err(reason)) is Err,
        content_answer(path, size, Err(reason))->Err_0.status == 500,
        content_answer(path, size, Err(reason))->Err_0.body.text_member("error"@) == Some(reason),
{
    law_a_text_is_sent_whole(path, size, bytes);
}

} // verus!
