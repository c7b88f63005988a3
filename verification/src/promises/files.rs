//! Files: which can be sent, what they are called, and whose bytes are here.

use crate::ids::Sha256Digest;
use crate::message::{AttachmentV, LocalFileV, MessageV};
use crate::service::attachments::{DownloadStepV, DownloadV, Fetch, InlinePartV};
use crate::service::{BlobErrorV, Effect, NodeV, ServiceErrorV, ServiceV};
use vstd::prelude::*;

verus! {

use crate::ids::digest_text;
use crate::service::attachments::{digests_of, delivery_budget, file_name, inline_named, inline_room, judged, last_dot, mime_of, mime_text, names_something, taken};
use crate::text::{first_at, lower, pieces, same_name};

// ---------------------------------------------------------------------------
// Names.
// ---------------------------------------------------------------------------

/// Text with a separator in it falls into the pieces before and those after.
pub proof fn pieces_of_two(a: Seq<char>, b: Seq<char>, separator: char)
    ensures
        pieces(a + seq![separator] + b, separator) == pieces(a, separator) + pieces(b, separator),
    decreases a.len(),
{
    let s = a + seq![separator] + b;
    assert(s[a.len() as int] == separator);
    assert(s.contains(separator));
    crate::text::first_at_is_first(s, separator);
    crate::text::first_at_is_first(a, separator);
    let at = first_at(s, separator);
    if a.contains(separator) {
        let k = first_at(a, separator);
        assert(a[k] == separator);
        assert(s[k] == separator);
        if at < k {
            assert(s[at] == a[at]);
        }
        assert(at == k);
        assert(s.take(at) =~= a.take(k));
        let rest = a.skip(k + 1);
        assert(s.skip(at + 1) =~= rest + seq![separator] + b);
        pieces_of_two(rest, b, separator);
        assert(pieces(s, separator) =~= pieces(a, separator) + pieces(b, separator));
    } else {
        if at < a.len() {
            assert(s[at] == a[at]);
            assert(a.contains(separator));
        }
        assert(at == a.len());
        assert(s.take(at) =~= a);
        assert(s.skip(at + 1) =~= b);
        assert(pieces(a, separator) =~= seq![a]);
        assert(pieces(s, separator) =~= pieces(a, separator) + pieces(b, separator));
    }
}

/// Whether text can be a file's name by itself.
pub open spec fn is_a_name(name: Seq<char>) -> bool {
    &&& name.len() > 0
    &&& !name.contains('/')
    &&& name != "."@
    &&& name != ".."@
}

/// A file is called by what stands last in its path, in whatever directory it
/// is.
pub proof fn a_file_is_called_by_the_end_of_its_path(dir: Seq<char>, name: Seq<char>)
    requires
        is_a_name(name),
    ensures
        file_name(name) == Some(name),
        file_name(dir + seq!['/'] + name) == Some(name),
{
    let keep = |part: Seq<char>| names_something(part);
    assert(pieces(name, '/') =~= seq![name]);
    let one = seq![name];
    reveal(Seq::filter);
    assert(one.drop_last() =~= Seq::<Seq<char>>::empty());
    assert(one.filter(keep) =~= seq![name]);
    pieces_of_two(dir, name, '/');
    let before = pieces(dir, '/');
    Seq::filter_distributes_over_add(before, one, keep);
    assert((before + one).filter(keep).last() == name);
}

/// A path that ends in no name, or in the directory above, names no file.
pub proof fn a_directory_above_is_no_file(dir: Seq<char>)
    ensures
        file_name(""@) is None,
        file_name(dir + "/.."@) is None,
{
    reveal_strlit("");
    reveal_strlit(".");
    reveal_strlit("..");
    reveal_strlit("/..");
    let keep = |part: Seq<char>| names_something(part);
    reveal(Seq::filter);
    assert(pieces(""@, '/') =~= seq![""@]);
    assert(""@ =~= Seq::<char>::empty());
    let none = seq![""@];
    assert(none.drop_last() =~= Seq::<Seq<char>>::empty());
    assert(none.last() == ""@ && !keep(none.last()));
    assert(none.drop_last().filter(keep) =~= Seq::<Seq<char>>::empty());
    assert(none.filter(keep) =~= Seq::<Seq<char>>::empty());
    let up = ".."@;
    assert(!up.contains('/'));
    assert(pieces(up, '/') =~= seq![up]);
    let one = seq![up];
    assert(one.drop_last() =~= Seq::<Seq<char>>::empty());
    assert(up.len() == 2 && "."@.len() == 1);
    assert(one.filter(keep) =~= seq![up]);
    assert(dir + "/.."@ =~= dir + seq!['/'] + up);
    pieces_of_two(dir, up, '/');
    let before = pieces(dir, '/');
    Seq::filter_distributes_over_add(before, one, keep);
    assert((before + one).filter(keep).last() == up);
}

proof fn lemma_last_dot(stem: Seq<char>, ext: Seq<char>)
    requires
        !ext.contains('.'),
    ensures
        last_dot(stem + seq!['.'] + ext) == Some(stem.len() as int),
    decreases ext.len(),
{
    let name = stem + seq!['.'] + ext;
    if ext.len() == 0 {
        assert(name.last() == '.');
    } else {
        assert(name.last() == ext.last());
        assert(ext.contains(ext.last()));
        assert(name.drop_last() =~= stem + seq!['.'] + ext.drop_last());
        assert(!ext.drop_last().contains('.')) by {
            if ext.drop_last().contains('.') {
                let k = ext.drop_last().index_of('.');
                assert(ext[k] == '.');
            }
        }
        lemma_last_dot(stem, ext.drop_last());
    }
}

proof fn lemma_no_dot(name: Seq<char>)
    requires
        !name.contains('.'),
    ensures
        last_dot(name) is None,
    decreases name.len(),
{
    if name.len() > 0 {
        assert(name.contains(name.last()));
        assert(!name.drop_last().contains('.')) by {
            if name.drop_last().contains('.') {
                let k = name.drop_last().index_of('.');
                assert(name[k] == '.');
            }
        }
        lemma_no_dot(name.drop_last());
    }
}

/// What a file is said to be goes by what follows the last dot of its name,
/// in upper case or lower, and by nothing else.
pub proof fn a_file_is_what_its_extension_says(
    dir: Seq<char>,
    stem: Seq<char>,
    ext: Seq<char>,
    same: Seq<char>,
)
    requires
        stem.len() > 0,
        !stem.contains('/'),
        !ext.contains('/'),
        !ext.contains('.'),
        !same.contains('/'),
        !same.contains('.'),
        ext.len() > 0,
        same_name(ext, same),
    ensures
        mime_of(dir + seq!['/'] + (stem + seq!['.'] + ext)) == mime_text(lower(ext)),
        mime_of(stem + seq!['.'] + ext) == mime_text(lower(ext)),
        mime_of(stem + seq!['.'] + same) == mime_of(stem + seq!['.'] + ext),
{
    crate::promises::words::names_agree_letter_by_letter(ext, same);
    lemma_extension(dir, stem, ext);
    lemma_extension(dir, stem, same);
}

proof fn lemma_extension(dir: Seq<char>, stem: Seq<char>, ext: Seq<char>)
    requires
        stem.len() > 0,
        !stem.contains('/'),
        !ext.contains('/'),
        !ext.contains('.'),
        ext.len() > 0,
    ensures
        mime_of(dir + seq!['/'] + (stem + seq!['.'] + ext)) == mime_text(lower(ext)),
        mime_of(stem + seq!['.'] + ext) == mime_text(lower(ext)),
{
    reveal_strlit(".");
    reveal_strlit("..");
    let name = stem + seq!['.'] + ext;
    assert(!name.contains('/')) by {
        if name.contains('/') {
            let k = name.index_of('/');
            if k < stem.len() {
                assert(stem[k] == '/');
            } else if k > stem.len() {
                assert(ext[k - stem.len() - 1] == '/');
            }
        }
    }
    assert(name.len() >= 3);
    a_file_is_called_by_the_end_of_its_path(dir, name);
    lemma_last_dot(stem, ext);
    assert(name.skip(stem.len() as int + 1) =~= ext);
}

/// A name without an extension says nothing of what the file is.
pub proof fn a_bare_name_says_nothing(name: Seq<char>)
    requires
        is_a_name(name),
        !name.contains('.'),
    ensures
        mime_of(name) == "application/octet-stream"@,
{
    lemma_no_dot(name);
    a_file_is_called_by_the_end_of_its_path(name, name);
    lemma_mime_texts();
}

proof fn lemma_mime_texts()
    ensures
        mime_text(""@) == "application/octet-stream"@,
        mime_text("txt"@) == "text/plain"@,
        mime_text("log"@) == "text/plain"@,
        mime_text("toml"@) == "text/plain"@,
        mime_text("md"@) == "text/markdown"@,
        mime_text("json"@) == "application/json"@,
        mime_text("csv"@) == "text/csv"@,
        mime_text("html"@) == "text/html"@,
        mime_text("htm"@) == "text/html"@,
        mime_text("png"@) == "image/png"@,
        mime_text("jpg"@) == "image/jpeg"@,
        mime_text("jpeg"@) == "image/jpeg"@,
        mime_text("gif"@) == "image/gif"@,
        mime_text("webp"@) == "image/webp"@,
        mime_text("svg"@) == "image/svg+xml"@,
        mime_text("pdf"@) == "application/pdf"@,
        mime_text("zip"@) == "application/zip"@,
        mime_text("gz"@) == "application/gzip"@,
        mime_text("tgz"@) == "application/gzip"@,
        mime_text("tar"@) == "application/x-tar"@,
{
    reveal_strlit("");
    reveal_strlit("txt");
    reveal_strlit("log");
    reveal_strlit("toml");
    reveal_strlit("md");
    reveal_strlit("json");
    reveal_strlit("csv");
    reveal_strlit("html");
    reveal_strlit("htm");
    reveal_strlit("png");
    reveal_strlit("jpg");
    reveal_strlit("jpeg");
    reveal_strlit("gif");
    reveal_strlit("webp");
    reveal_strlit("svg");
    reveal_strlit("pdf");
    reveal_strlit("zip");
    reveal_strlit("gz");
    reveal_strlit("tgz");
    reveal_strlit("tar");
    assert(""@ =~= Seq::<char>::empty());
    assert("txt"@.len() == 3 && "txt"@[0] == 't' && "txt"@[1] == 'x' && "txt"@[2] == 't');
    assert("log"@.len() == 3 && "log"@[0] == 'l' && "log"@[1] == 'o' && "log"@[2] == 'g');
    assert("toml"@.len() == 4 && "toml"@[0] == 't' && "toml"@[1] == 'o' && "toml"@[2] == 'm' && "toml"@[3] == 'l');
    assert("md"@.len() == 2 && "md"@[0] == 'm' && "md"@[1] == 'd');
    assert("json"@.len() == 4 && "json"@[0] == 'j' && "json"@[1] == 's' && "json"@[2] == 'o' && "json"@[3] == 'n');
    assert("csv"@.len() == 3 && "csv"@[0] == 'c' && "csv"@[1] == 's' && "csv"@[2] == 'v');
    assert("html"@.len() == 4 && "html"@[0] == 'h' && "html"@[1] == 't' && "html"@[2] == 'm' && "html"@[3] == 'l');
    assert("htm"@.len() == 3 && "htm"@[0] == 'h' && "htm"@[1] == 't' && "htm"@[2] == 'm');
    assert("png"@.len() == 3 && "png"@[0] == 'p' && "png"@[1] == 'n' && "png"@[2] == 'g');
    assert("jpg"@.len() == 3 && "jpg"@[0] == 'j' && "jpg"@[1] == 'p' && "jpg"@[2] == 'g');
    assert("jpeg"@.len() == 4 && "jpeg"@[0] == 'j' && "jpeg"@[1] == 'p' && "jpeg"@[2] == 'e' && "jpeg"@[3] == 'g');
    assert("gif"@.len() == 3 && "gif"@[0] == 'g' && "gif"@[1] == 'i' && "gif"@[2] == 'f');
    assert("webp"@.len() == 4 && "webp"@[0] == 'w' && "webp"@[1] == 'e' && "webp"@[2] == 'b' && "webp"@[3] == 'p');
    assert("svg"@.len() == 3 && "svg"@[0] == 's' && "svg"@[1] == 'v' && "svg"@[2] == 'g');
    assert("pdf"@.len() == 3 && "pdf"@[0] == 'p' && "pdf"@[1] == 'd' && "pdf"@[2] == 'f');
    assert("zip"@.len() == 3 && "zip"@[0] == 'z' && "zip"@[1] == 'i' && "zip"@[2] == 'p');
    assert("gz"@.len() == 2 && "gz"@[0] == 'g' && "gz"@[1] == 'z');
    assert("tgz"@.len() == 3 && "tgz"@[0] == 't' && "tgz"@[1] == 'g' && "tgz"@[2] == 'z');
    assert("tar"@.len() == 3 && "tar"@[0] == 't' && "tar"@[1] == 'a' && "tar"@[2] == 'r');
}

proof fn lemma_lower_case(ext: Seq<char>)
    requires
        forall|i: int| 0 <= i < ext.len() ==> 'a' <= #[trigger] ext[i] && ext[i] <= 'z',
    ensures
        lower(ext) == ext,
        !ext.contains('/'),
        !ext.contains('.'),
{
    assert(lower(ext) =~= ext);
}

/// The kinds of file that are known by their extension, whatever the rest of
/// the name is.
pub proof fn known_extensions(stem: Seq<char>)
    requires
        stem.len() > 0,
        !stem.contains('/'),
    ensures
        mime_of(stem + seq!['.'] + "txt"@) == "text/plain"@,
        mime_of(stem + seq!['.'] + "log"@) == "text/plain"@,
        mime_of(stem + seq!['.'] + "toml"@) == "text/plain"@,
        mime_of(stem + seq!['.'] + "md"@) == "text/markdown"@,
        mime_of(stem + seq!['.'] + "json"@) == "application/json"@,
        mime_of(stem + seq!['.'] + "csv"@) == "text/csv"@,
        mime_of(stem + seq!['.'] + "html"@) == "text/html"@,
        mime_of(stem + seq!['.'] + "htm"@) == "text/html"@,
        mime_of(stem + seq!['.'] + "png"@) == "image/png"@,
        mime_of(stem + seq!['.'] + "jpg"@) == "image/jpeg"@,
        mime_of(stem + seq!['.'] + "jpeg"@) == "image/jpeg"@,
        mime_of(stem + seq!['.'] + "gif"@) == "image/gif"@,
        mime_of(stem + seq!['.'] + "webp"@) == "image/webp"@,
        mime_of(stem + seq!['.'] + "svg"@) == "image/svg+xml"@,
        mime_of(stem + seq!['.'] + "pdf"@) == "application/pdf"@,
        mime_of(stem + seq!['.'] + "zip"@) == "application/zip"@,
        mime_of(stem + seq!['.'] + "gz"@) == "application/gzip"@,
        mime_of(stem + seq!['.'] + "tgz"@) == "application/gzip"@,
        mime_of(stem + seq!['.'] + "tar"@) == "application/x-tar"@,
{
    lemma_mime_texts();
    reveal_strlit("txt");
    reveal_strlit("log");
    reveal_strlit("toml");
    reveal_strlit("md");
    reveal_strlit("json");
    reveal_strlit("csv");
    reveal_strlit("html");
    reveal_strlit("htm");
    reveal_strlit("png");
    reveal_strlit("jpg");
    reveal_strlit("jpeg");
    reveal_strlit("gif");
    reveal_strlit("webp");
    reveal_strlit("svg");
    reveal_strlit("pdf");
    reveal_strlit("zip");
    reveal_strlit("gz");
    reveal_strlit("tgz");
    reveal_strlit("tar");
    let all = seq![
        "txt"@,
        "log"@,
        "toml"@,
        "md"@,
        "json"@,
        "csv"@,
        "html"@,
        "htm"@,
        "png"@,
        "jpg"@,
        "jpeg"@,
        "gif"@,
        "webp"@,
        "svg"@,
        "pdf"@,
        "zip"@,
        "gz"@,
        "tgz"@,
        "tar"@,
    ];
    assert forall|i: int| 0 <= i < all.len() implies mime_of(stem + seq!['.'] + #[trigger] all[i])
        == mime_text(all[i]) by {
        lemma_lower_case(all[i]);
        lemma_extension(stem, stem, all[i]);
    }
    assert(all[0] == "txt"@ && all[1] == "log"@ && all[2] == "toml"@ && all[3] == "md"@);
    assert(all[4] == "json"@ && all[5] == "csv"@ && all[6] == "html"@ && all[7] == "htm"@);
    assert(all[8] == "png"@ && all[9] == "jpg"@ && all[10] == "jpeg"@ && all[11] == "gif"@);
    assert(all[12] == "webp"@ && all[13] == "svg"@ && all[14] == "pdf"@ && all[15] == "zip"@);
    assert(all[16] == "gz"@ && all[17] == "tgz"@ && all[18] == "tar"@);
}

// ---------------------------------------------------------------------------
// Taking files.
// ---------------------------------------------------------------------------

/// Whether a file can be sent: it has a name that may travel, it could be
/// read, and it is not larger than a file may be.
pub open spec fn can_be_taken(file: LocalFileV, max: u64) -> bool {
    &&& file_name(file.path) is Some
    &&& file.refused is None
    &&& file.read matches Ok((_, size)) && size <= max
}

/// Whether an attachment is of a file: by its name, by what the name says it
/// is, and by its bytes.
pub open spec fn is_of(attachment: AttachmentV, file: LocalFileV) -> bool {
    &&& file_name(file.path) == Some(attachment.name)
    &&& attachment.mime == mime_of(file.path)
    &&& file.read == Ok::<(Sha256Digest, u64), Seq<char>>((attachment.sha256, attachment.size))
}

/// The bytes that travel with a message because of the first of its files.
pub open spec fn inline_before(list: Seq<AttachmentV>, k: int) -> nat
    decreases k,
{
    if k <= 0 {
        0
    } else {
        inline_before(list, k - 1) + if list[k - 1].inline {
            list[k - 1].size as nat
        } else {
            0
        }
    }
}

/// Whether an attachment is of the file given in its place, and travels with
/// the message where it is small enough and there is room for it beside those
/// before it.
pub open spec fn is_as_given(
    list: Seq<AttachmentV>,
    k: int,
    files: Seq<LocalFileV>,
    node: NodeV,
    room: nat,
) -> bool {
    &&& is_of(list[k], files[k])
    &&& can_be_taken(files[k], node.max_attachment_bytes)
    &&& list[k].inline <==> list[k].size <= node.inline_max_bytes && inline_before(list, k)
        + list[k].size <= room
}

proof fn lemma_inline_front(list: Seq<AttachmentV>, k: int)
    requires
        0 <= k < list.len(),
    ensures
        inline_before(list, k + 1) == inline_before(list.skip(1), k) + if list[0].inline {
            list[0].size as nat
        } else {
            0
        },
    decreases k,
{
    if k > 0 {
        lemma_inline_front(list, k - 1);
        assert(list.skip(1)[k - 1] == list[k]);
    } else {
        assert(inline_before(list, 0) == 0);
    }
}

/// Files are taken in the order they are given, each as it is, and all of them
/// or it is said what is wrong with the first that cannot be. A file travels
/// with the message where it is small enough and there is room for it beside
/// those before it.
pub proof fn files_are_taken_as_they_are(files: Seq<LocalFileV>, node: NodeV, room: nat)
    ensures
        taken(files, node, room).1 is None <==> forall|k: int|
            0 <= k < files.len() ==> can_be_taken(#[trigger] files[k], node.max_attachment_bytes),
        taken(files, node, room).1 is None ==> taken(files, node, room).0.len() == files.len(),
        taken(files, node, room).0.len() <= files.len(),
        forall|k: int|
            0 <= k < taken(files, node, room).0.len() ==> #[trigger] is_as_given(
                taken(files, node, room).0,
                k,
                files,
                node,
                room,
            ),
        taken(files, node, room).1 matches Some(error) ==> {
            let k = taken(files, node, room).0.len() as int;
            &&& k < files.len()
            &&& match files[k].read {
                _ if file_name(files[k].path) is None => error is UnsafeName,
                _ if files[k].refused is Some => error == BlobErrorV::UnsafeName(
                    files[k].refused->0,
                ),
                Err(why) => error == BlobErrorV::Io(why),
                Ok((_, size)) => size > node.max_attachment_bytes && error == BlobErrorV::TooLarge {
                    size,
                    limit: node.max_attachment_bytes,
                },
            }
        },
    decreases files.len(),
{
    if files.len() > 0 {
        let max = node.max_attachment_bytes;
        if let Ok((name, sha256, size)) = judged(files[0], max) {
            let inline = size <= node.inline_max_bytes && size <= room;
            let left = if inline {
                (room - size) as nat
            } else {
                room
            };
            let later = files.skip(1);
            files_are_taken_as_they_are(later, node, left);
            let all = taken(files, node, room).0;
            let rest = taken(later, node, left).0;
            assert(all.skip(1) =~= rest);
            assert(all[0].inline == inline && all[0].size == size);
            assert forall|k: int| 0 <= k < all.len() implies #[trigger] is_as_given(
                all,
                k,
                files,
                node,
                room,
            ) by {
                if k > 0 {
                    assert(is_as_given(rest, k - 1, later, node, left));
                    assert(all[k] == rest[k - 1]);
                    assert(files[k] == later[k - 1]);
                    lemma_inline_front(all, k - 1);
                } else {
                    assert(inline_before(all, 0) == 0);
                }
            }
            if taken(files, node, room).1 is None {
                assert forall|k: int| 0 <= k < files.len() implies can_be_taken(
                    #[trigger] files[k],
                    max,
                ) by {
                    assert(is_as_given(all, k, files, node, room));
                }
            } else {
                assert(!forall|k: int| 0 <= k < later.len() ==> can_be_taken(
                    #[trigger] later[k],
                    max,
                ));
                let k = choose|k: int|
                    0 <= k < later.len() && !can_be_taken(#[trigger] later[k], max);
                assert(files[k + 1] == later[k]);
                assert(files[rest.len() as int + 1] == later[rest.len() as int]);
            }
        } else {
            assert(!can_be_taken(files[0], max));
        }
    }
}

/// What travels with a message has room for four files of the largest size
/// that may, and what a delivery may hold is that, the largest body, and a
/// little over.
pub proof fn the_room_there_is(node: NodeV)
    requires
        4 * node.inline_max_bytes + node.body_max_bytes + 65_536 <= u64::MAX,
    ensures
        inline_room(node) == 4 * node.inline_max_bytes,
        delivery_budget(node) == 4 * node.inline_max_bytes + node.body_max_bytes + 65_536,
{
}

/// The files that are kept are here from then on, and no other comes or goes.
pub proof fn kept_files_are_here(node: ServiceV, files: Seq<AttachmentV>)
    ensures
        forall|d: Sha256Digest| #[trigger]
            node.keeping(files).blobs.contains_key(d) <==> node.blobs.contains_key(d) || exists|
                k: int,
            |
                0 <= k < files.len() && (#[trigger] files[k]).sha256 == d,
        forall|d: Sha256Digest| #[trigger]
            node.keeping(files).blobs.contains_key(d) && (forall|k: int|
                0 <= k < files.len() ==> (#[trigger] files[k]).sha256 != d)
                ==> node.keeping(files).blobs[d] == node.blobs[d],
        node.keeping(files).effects == node.effects + files.map_values(
            |a: AttachmentV| Effect::KeepBlob { digest: a.sha256 },
        ),
    decreases files.len(),
{
    let told = |a: AttachmentV| Effect::KeepBlob { digest: a.sha256 };
    if files.len() > 0 {
        let before = files.drop_last();
        kept_files_are_here(node, before);
        let now = node.keeping(files).blobs;
        assert forall|d: Sha256Digest| #[trigger] now.contains_key(d) <==> node.blobs.contains_key(
            d,
        ) || exists|k: int| 0 <= k < files.len() && (#[trigger] files[k]).sha256 == d by {
            if exists|k: int| 0 <= k < before.len() && (#[trigger] before[k]).sha256 == d {
                let k = choose|k: int| 0 <= k < before.len() && (#[trigger] before[k]).sha256 == d;
                assert(files[k].sha256 == d);
            }
            if exists|k: int| 0 <= k < files.len() && (#[trigger] files[k]).sha256 == d {
                let k = choose|k: int| 0 <= k < files.len() && (#[trigger] files[k]).sha256 == d;
                if k < before.len() {
                    assert(before[k].sha256 == d);
                }
            }
            assert(files[files.len() - 1] == files.last());
        }
        assert forall|d: Sha256Digest| #[trigger]
            now.contains_key(d) && (forall|k: int|
                0 <= k < files.len() ==> (#[trigger] files[k]).sha256
                    != d) implies now[d] == node.blobs[d] by {
            assert(files[files.len() - 1] == files.last());
            assert forall|k: int| 0 <= k < before.len() implies (#[trigger] before[k]).sha256
                != d by {
                assert(files[k] == before[k]);
            }
            assert(node.keeping(before).blobs.contains_key(d));
        }
        assert(files.map_values(told) =~= before.map_values(told) + seq![told(files.last())]);
        assert(node.keeping(files).effects =~= node.effects + files.map_values(told));
    } else {
        assert(files.map_values(told) =~= Seq::<Effect>::empty());
        assert(node.effects + files.map_values(told) =~= node.effects);
    }
}

// ---------------------------------------------------------------------------
// Giving and fetching.
// ---------------------------------------------------------------------------

/// Whether a message says that a file comes with it.
pub open spec fn declares(message: MessageV, digest: Sha256Digest) -> bool {
    exists|k: int|
        0 <= k < message.attachments.len() && (#[trigger] message.attachments[k]).sha256 == digest
}

/// A file of a message here is given from here where its bytes are here, and
/// else fetched from whoever sent it, unless that is this node; a file that the
/// message does not declare is given in no case.
pub proof fn a_file_comes_from_here_or_its_sender(
    node: ServiceV,
    id: crate::ids::Ulid,
    digest: Sha256Digest,
)
    ensures
        node.found(id) matches Ok((mailbox, message)) ==> match node.fetching(id, digest) {
            Ok(Fetch::Here) => declares(message, digest) && node.blobs.contains_key(digest),
            Ok(Fetch::From(who)) => declares(message, digest) && !node.blobs.contains_key(digest)
                && who == message.from && who != node.node.id,
            Err(error) => error is Blob && (!declares(message, digest) || (
            !node.blobs.contains_key(digest) && message.from == node.node.id)),
        },
        node.found(id) is Err ==> node.fetching(id, digest) is Err,
{
}

/// The files of a message that are missing are those it declares and whose
/// bytes are not here.
pub proof fn what_is_missing_is_declared_and_not_here(
    node: ServiceV,
    message: MessageV,
    digest: Sha256Digest,
)
    ensures
        node.missing(message).contains(digest) <==> declares(message, digest)
            && !node.blobs.contains_key(digest),
{
    let keep = |d: Sha256Digest| !node.blobs.contains_key(d);
    let all = digests_of(message.attachments);
    crate::sorting::filter_from(all, keep);
    if node.missing(message).contains(digest) {
        let k = node.missing(message).index_of(digest);
        assert(all.contains(node.missing(message)[k]));
        let j = all.index_of(digest);
        assert(message.attachments[j].sha256 == digest);
    }
    if declares(message, digest) && !node.blobs.contains_key(digest) {
        let k = choose|k: int|
            0 <= k < message.attachments.len() && (#[trigger] message.attachments[k]).sha256
                == digest;
        assert(all[k] == digest);
        crate::sorting::filter_has(all, keep, k);
    }
}

/// A download is from a peer, over an address of its, held to the certificate
/// that the address book has for it; there is none from anybody else.
pub proof fn a_download_is_held_to_the_address_book(node: ServiceV, from: crate::ids::NodeId)
    ensures
        node.download(from) is Ok <==> node.book.peers.contains_key(from)
            && node.book.peers[from].addrs.len() > 0,
        node.download(from) matches Ok(plan) ==> {
            &&& plan.from == from
            &&& plan.certificate == node.book.peers[from].certificate
            &&& plan.addresses.len() == node.book.peers[from].addrs.len()
            &&& plan.step() == DownloadStepV::Try(plan.addresses[0])
        },
{
    if node.is_member(from) {
        crate::sorting::sorting_keeps_elements(
            node.book.peers[from].addrs,
            |a: crate::peerbook::AddrV, b: crate::peerbook::AddrV| a.preferred_to(b),
        );
    }
}

/// Where an address fails the next is tried; where the last has failed, the
/// download ends with what the last of them said.
pub proof fn a_failed_address_is_left_behind(plan: DownloadV, what: Seq<char>)
    requires
        plan.next < plan.addresses.len(),
    ensures
        plan.step() == DownloadStepV::Try(plan.addresses[plan.next as int]),
        plan.next + 1 < plan.addresses.len() ==> plan.failed(what).step() == DownloadStepV::Try(
            plan.addresses[plan.next as int + 1],
        ),
        plan.next + 1 == plan.addresses.len() ==> plan.failed(what).step()
            == DownloadStepV::GiveUp(ServiceErrorV::Peer(what)),
        plan.failed(what).addresses == plan.addresses,
{
}

/// Whether a part of a delivery is of a file that the message says travels
/// with it, called by that file's digest and holding its bytes.
pub open spec fn part_belongs(message: MessageV, part: InlinePartV) -> bool {
    exists|k: int|
        0 <= k < message.attachments.len() && (#[trigger] message.attachments[k]).inline
            && digest_text(message.attachments[k].sha256) == part.name
            && message.attachments[k].sha256 == part.actual
}

proof fn lemma_inline_named(attachments: Seq<AttachmentV>, name: Seq<char>)
    ensures
        match inline_named(attachments, name) {
            Some(digest) => digest_text(digest) == name && exists|k: int|
                0 <= k < attachments.len() && (#[trigger] attachments[k]).inline
                    && attachments[k].sha256 == digest,
            None => forall|k: int|
                0 <= k < attachments.len() ==> !((#[trigger] attachments[k]).inline && digest_text(
                    attachments[k].sha256,
                ) == name),
        },
    decreases attachments.len(),
{
    if attachments.len() > 0 {
        let rest = attachments.skip(1);
        lemma_inline_named(rest, name);
        if attachments[0].inline && digest_text(attachments[0].sha256) == name {
        } else {
            match inline_named(rest, name) {
                Some(digest) => {
                    let k = choose|k: int|
                        0 <= k < rest.len() && (#[trigger] rest[k]).inline && rest[k].sha256
                            == digest;
                    assert(attachments[k + 1] == rest[k]);
                },
                None => {
                    assert forall|k: int| 0 <= k < attachments.len() implies !((
                    #[trigger] attachments[k]).inline && digest_text(attachments[k].sha256)
                        == name) by {
                        if k > 0 {
                            assert(attachments[k] == rest[k - 1]);
                        }
                    }
                },
            }
        }
    }
}

/// A delivery's files are all taken in where each belongs to the message, and
/// are then here; else the delivery is refused.
pub proof fn only_files_that_belong_are_taken_in(
    node: ServiceV,
    message: MessageV,
    parts: Seq<InlinePartV>,
)
    ensures
        node.accepting(message, parts).1 is None <==> forall|k: int|
            0 <= k < parts.len() ==> part_belongs(message, #[trigger] parts[k]),
        node.accepting(message, parts).1 is None ==> forall|d: Sha256Digest| #[trigger]
            node.accepting(message, parts).0.blobs.contains_key(d) <==> node.blobs.contains_key(d)
                || exists|k: int| 0 <= k < parts.len() && (#[trigger] parts[k]).actual == d,
        node.accepting(message, parts).0 == (ServiceV {
            blobs: node.accepting(message, parts).0.blobs,
            effects: node.accepting(message, parts).0.effects,
            ..node
        }),
    decreases parts.len(),
{
    if parts.len() > 0 {
        let part = parts[0];
        let later = parts.skip(1);
        lemma_inline_named(message.attachments, part.name);
        match inline_named(message.attachments, part.name) {
            None => {
                assert(!part_belongs(message, parts[0]));
            },
            Some(expected) => {
                if part.actual != expected {
                    if part_belongs(message, part) {
                        let k = choose|k: int|
                            0 <= k < message.attachments.len() && (
                            #[trigger] message.attachments[k]).inline && digest_text(
                                message.attachments[k].sha256,
                            ) == part.name && message.attachments[k].sha256 == part.actual;
                        crate::ids::digest_text_reads_back(expected);
                        crate::ids::digest_text_reads_back(part.actual);
                    }
                    assert(!part_belongs(message, parts[0]));
                } else {
                    let k = choose|k: int|
                        0 <= k < message.attachments.len() && (
                        #[trigger] message.attachments[k]).inline && message.attachments[k].sha256
                            == expected;
                    assert(part_belongs(message, part));
                    let kept = ServiceV {
                        blobs: node.blobs.insert(expected, part.size),
                        ..node
                    }.noting(seq![Effect::KeepBlob { digest: expected }]);
                    only_files_that_belong_are_taken_in(kept, message, later);
                    assert(node.accepting(message, parts) == kept.accepting(message, later));
                    if forall|j: int| 0 <= j < later.len() ==> part_belongs(message, #[trigger] later[j]) {
                        assert forall|j: int| 0 <= j < parts.len() implies part_belongs(
                            message,
                            #[trigger] parts[j],
                        ) by {
                            if j > 0 {
                                assert(parts[j] == later[j - 1]);
                            }
                        }
                    } else {
                        let j = choose|j: int|
                            0 <= j < later.len() && !part_belongs(message, #[trigger] later[j]);
                        assert(parts[j + 1] == later[j]);
                    }
                    if node.accepting(message, parts).1 is None {
                        let now = node.accepting(message, parts).0.blobs;
                        assert forall|d: Sha256Digest| #[trigger]
                            now.contains_key(d) <==> node.blobs.contains_key(d) || exists|j: int|
                            0 <= j < parts.len() && (#[trigger] parts[j]).actual == d by {
                            assert(kept.blobs.contains_key(d) <==> node.blobs.contains_key(d) || d
                                == expected);
                            if exists|j: int| 0 <= j < later.len() && (#[trigger] later[j]).actual
                                == d {
                                let j = choose|j: int|
                                    0 <= j < later.len() && (#[trigger] later[j]).actual == d;
                                assert(parts[j + 1].actual == d);
                            }
                            if exists|j: int| 0 <= j < parts.len() && (#[trigger] parts[j]).actual
                                == d {
                                let j = choose|j: int|
                                    0 <= j < parts.len() && (#[trigger] parts[j]).actual == d;
                                if j > 0 {
                                    assert(later[j - 1].actual == d);
                                }
                            }
                            assert(parts[0].actual == expected);
                        }
                    }
                }
            },
        }
    }
}

} // verus!
