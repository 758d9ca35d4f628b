//! Exporting a session as an archive.
use std::io::Write;
use vstd::prelude::*;
use vstd::string::*;
use vstd::utf8::{decode_utf8, encode_utf8, encode_utf8_decode_utf8};

use crate::proto::{ErrorView, RpcError};
use crate::text::{begins_with, chars_of, joined, joined3};

verus! {

/// An archive in the making, as `zip` keeps it.
#[verifier::external_body]
pub struct Archive {
    writer: zip::ZipWriter<std::io::Cursor<Vec<u8>>>,
}

/// The files that an archive in the making holds, in the order in which they
/// were started.
pub uninterp spec fn zip_entries(w: Archive) -> Seq<(Seq<char>, Seq<u8>)>;

/// Whether an archive in the making goes on: nothing has failed, and it is not
/// closed.
pub uninterp spec fn zip_usable(w: Archive) -> bool;

/// The files that the bytes of an archive hold.
pub uninterp spec fn archive_entries(bytes: Seq<u8>) -> Seq<(Seq<char>, Seq<u8>)>;

/// `zip::ZipWriter::new` over memory: an archive without files, which goes on.
#[verifier::external_body]
fn zip_new() -> (r: Archive)
    ensures
        zip_usable(r),
        zip_entries(r) == Seq::<(Seq<char>, Seq<u8>)>::empty(),
{
    Archive { writer: zip::ZipWriter::new(std::io::Cursor::new(Vec::new())) }
}

/// How much room files ask for in an archive: their paths and contents, and 64 bytes
/// for each.
pub open spec fn room(all: Seq<(Seq<char>, Seq<u8>)>) -> nat
    decreases all.len(),
{
    if all.len() == 0 {
        0
    } else {
        room(all.drop_last()) + encode_utf8(all.last().0).len() + all.last().1.len() + 64
    }
}

/// Whether files fit into an archive with much to spare: `zip` writes sizes and
/// places of up to four gigabytes as they are, and these ask for no more than two,
/// which compressing makes longer by less than a thousandth where it does not make
/// them shorter.
pub open spec fn is_roomy(all: Seq<(Seq<char>, Seq<u8>)>) -> bool {
    room(all) <= 0x7fff_ffff
}

/// A path that an archive can name a file by: it has at most 65535 bytes.
pub open spec fn is_entry_path(path: Seq<char>) -> bool {
    encode_utf8(path).len() <= 65535
}

/// `zip::ZipWriter::start_file`, for a compressed file: a file without content
/// comes behind the others, under a path that none of them has. A path that is
/// taken fails; one that is not taken is not refused while the archive goes on and
/// its files fit with much to spare. A path that an archive cannot name a file by
/// would stop the program.
#[verifier::external_body]
fn zip_start(w: &mut Archive, path: &str) -> (r: Result<(), String>)
    requires
        is_entry_path(path@),
    ensures
        r is Ok ==> !has_entry(zip_entries(*old(w)), path@) && zip_entries(*final(w)) == zip_entries(
            *old(w),
        ).push((path@, Seq::empty())),
        zip_usable(*old(w)) && !has_entry(zip_entries(*old(w)), path@) && is_roomy(
            zip_entries(*old(w)).push((path@, Seq::empty())),
        ) ==> r is Ok && zip_usable(*final(w)),
{
    let options = zip::write::SimpleFileOptions::default()
        .compression_method(zip::CompressionMethod::Deflated);
    w.writer.start_file(path, options).map_err(|e| e.to_string())
}

/// `std::io::Write::write_all` on a `zip::ZipWriter`: the bytes come behind what
/// the last file holds. It does not fail while the archive goes on and its files
/// fit with much to spare.
#[verifier::external_body]
fn zip_write(w: &mut Archive, bytes: &Vec<u8>) -> (r: Result<
    (),
    String,
>)
    requires
        zip_entries(*old(w)).len() > 0,
    ensures
        r is Ok ==> zip_entries(*final(w)) == zip_entries(*old(w)).drop_last().push(
            (zip_entries(*old(w)).last().0, zip_entries(*old(w)).last().1 + bytes@),
        ),
        zip_usable(*old(w)) && is_roomy(
            zip_entries(*old(w)).drop_last().push(
                (zip_entries(*old(w)).last().0, zip_entries(*old(w)).last().1 + bytes@),
            ),
        ) ==> r is Ok && zip_usable(*final(w)),
{
    w.writer.write_all(bytes).map_err(|e| e.to_string())
}

/// `zip::ZipWriter::finish`: the bytes of an archive that holds the files. It does
/// not fail where the archive goes on and its files fit with much to spare.
#[verifier::external_body]
fn zip_finish(w: Archive) -> (r: Result<Vec<u8>, String>)
    ensures
        r matches Ok(bytes) ==> archive_entries(bytes@) == zip_entries(w),
        zip_usable(w) && is_roomy(zip_entries(w)) ==> r is Ok,
{
    w.writer.finish().map(|c| c.into_inner()).map_err(|e| e.to_string())
}

/// Whether an archive has a file under a path.
pub open spec fn has_entry(all: Seq<(Seq<char>, Seq<u8>)>, path: Seq<char>) -> bool {
    exists|i: int| 0 <= i < all.len() && (#[trigger] all[i]).0 == path
}

/// A file to be put into an archive.
#[derive(Debug, PartialEq)]
pub struct ZipEntry {
    pub path: String,
    pub bytes: Vec<u8>,
}

/// The models of files.
pub open spec fn entry_views(v: Seq<ZipEntry>) -> Seq<(Seq<char>, Seq<u8>)> {
    v.map_values(|e: ZipEntry| (e.path@, e.bytes@))
}

/// Whether no path comes twice.
pub open spec fn paths_differ(all: Seq<(Seq<char>, Seq<u8>)>) -> bool {
    forall|i: int, j: int|
        0 <= i < j < all.len() ==> (#[trigger] all[i]).0 != (#[trigger] all[j]).0
}

/// Whether an archive can name files by the paths that they have.
pub open spec fn all_entry_paths(all: Seq<(Seq<char>, Seq<u8>)>) -> bool {
    forall|i: int| 0 <= i < all.len() ==> is_entry_path((#[trigger] all[i]).0)
}

/// An archive that could not be written.
pub open spec fn is_zip_failure(e: ErrorView) -> bool {
    &&& e.code == "internal"@
    &&& e.details is Null
    &&& begins_with(e.message, "zip 写入失败:"@) || begins_with(e.message, "zip 收尾失败:"@)
}

fn zip_failure(prefix: &str, e: String) -> (r: RpcError)
    ensures
        r@.code == "internal"@,
        r@.details is Null,
        begins_with(r@.message, prefix@),
{
    let message = joined(prefix, e.as_str());
    assert(message@.take(prefix@.len() as int) =~= prefix@);
    RpcError::internal(message.as_str())
}

proof fn lemma_room_grows(all: Seq<(Seq<char>, Seq<u8>)>, i: int)
    requires
        0 <= i <= all.len(),
    ensures
        room(all.take(i)) <= room(all),
    decreases all.len() - i,
{
    if i < all.len() {
        lemma_room_grows(all, i + 1);
        assert(all.take(i + 1).drop_last() =~= all.take(i));
    } else {
        assert(all.take(i) =~= all);
    }
}

/// Makes an archive of files: what it holds is the files, in order. Files of
/// which two have the same path make none; any others do, as far as they fit with
/// much to spare.
pub fn build_archive(entries: &Vec<ZipEntry>) -> (r: Result<Vec<u8>, RpcError>)
    requires
        all_entry_paths(entry_views(entries@)),
    ensures
        match r {
            Ok(bytes) => archive_entries(bytes@) == entry_views(entries@) && paths_differ(
                entry_views(entries@),
            ),
            Err(e) => is_zip_failure(e@),
        },
        !paths_differ(entry_views(entries@)) ==> r is Err,
        paths_differ(entry_views(entries@)) && is_roomy(entry_views(entries@)) ==> r is Ok,
{
    let ghost all = entry_views(entries@);
    let ghost owed = paths_differ(all) && is_roomy(all);
    let mut w = zip_new();
    let mut i: usize = 0;
    assert(all.take(0) =~= Seq::empty());
    while i < entries.len()
        invariant
            i <= entries.len(),
            all == entry_views(entries@),
            all_entry_paths(all),
            owed == (paths_differ(all) && is_roomy(all)),
            owed ==> zip_usable(w),
            zip_entries(w) == all.take(i as int),
            paths_differ(all.take(i as int)),
        decreases entries.len() - i,
    {
        let ghost head = all.take(i as int);
        proof {
            let path = entries@[i as int].path@;
            let bytes = entries@[i as int].bytes@;
            assert(all[i as int] == (path, bytes));
            assert(is_entry_path(path));
            lemma_room_grows(all, i + 1);
            assert(all.take(i + 1).drop_last() =~= head);
            assert(head.push((path, Seq::<u8>::empty())).drop_last() =~= head);
            if owed && has_entry(head, path) {
                let k = choose|k: int| 0 <= k < head.len() && (#[trigger] head[k]).0 == path;
                assert(all[k].0 != all[i as int].0);
            }
            assert(Seq::<u8>::empty() + bytes =~= bytes);
            assert(head.push((path, Seq::<u8>::empty())).drop_last().push((path, bytes))
                =~= all.take(i + 1));
        }
        if let Err(e) = zip_start(&mut w, entries[i].path.as_str()) {
            return Err(zip_failure("zip 写入失败:", e));
        }
        if let Err(e) = zip_write(&mut w, &entries[i].bytes) {
            return Err(zip_failure("zip 写入失败:", e));
        }
        proof {
            let path = entries@[i as int].path@;
            let more = all.take(i + 1);
            let bytes = entries@[i as int].bytes@;
            assert(all[i as int] == (path, bytes));
            assert(head.push((path, Seq::<u8>::empty())).drop_last() =~= head);
            assert(Seq::<u8>::empty() + bytes =~= bytes);
            assert(more =~= head.push((path, bytes)));
            assert forall|a: int, b: int| 0 <= a < b < more.len() implies (#[trigger] more[a]).0 != (
            #[trigger] more[b]).0 by {
                if b == i {
                    assert(head[a].0 != path);
                } else {
                    assert(head[a].0 != head[b].0);
                }
            }
        }
        i = i + 1;
    }
    assert(all.take(all.len() as int) =~= all);
    match zip_finish(w) {
        Ok(bytes) => Ok(bytes),
        Err(e) => Err(zip_failure("zip 收尾失败:", e)),
    }
}

/// A character of a path in an archive that an id keeps.
pub open spec fn is_kept(c: char) -> bool {
    ||| '0' <= c && c <= '9'
    ||| 'A' <= c && c <= 'Z'
    ||| 'a' <= c && c <= 'z'
    ||| c == '-'
    ||| c == '_'
}

/// An id as part of a path: each other character is an underscore.
pub open spec fn path_safe(id: Seq<char>) -> Seq<char> {
    id.map_values(
        |c: char|
            if is_kept(c) {
                c
            } else {
                '_'
            },
    )
}

fn safe_id(id: &str) -> (r: String)
    ensures
        r@ == path_safe(id@),
{
    let v = chars_of(id);
    let ghost wanted = path_safe(id@);
    let mut out = String::new();
    let mut i: usize = 0;
    while i < v.len()
        invariant
            i <= v.len(),
            v@ == id@,
            wanted == path_safe(id@),
            out@ == wanted.take(i as int),
        decreases v.len() - i,
    {
        let c = v[i];
        let kept = ('0' <= c && c <= '9') || ('A' <= c && c <= 'Z') || ('a' <= c && c <= 'z') || c
            == '-' || c == '_';
        out.push(
            if kept {
                c
            } else {
                '_'
            },
        );
        assert(wanted.take(i + 1) =~= wanted.take(i as int).push(wanted[i as int]));
        i = i + 1;
    }
    assert(wanted.take(wanted.len() as int) =~= wanted);
    out
}

/// A session that comes from the exported one.
#[derive(Debug, PartialEq)]
pub struct Descendant {
    pub id: String,
    pub text: String,
}

/// An image that a log refers to.
#[derive(Debug, PartialEq)]
pub struct Media {
    pub attachment_id: String,
    pub extension: String,
    pub bytes: Vec<u8>,
}

/// The file of a session that comes from the exported one.
pub open spec fn descendant_entry(d: Descendant) -> (Seq<char>, Seq<u8>) {
    (
        "descendants/"@ + path_safe(d.id@) + "/session.jsonl"@,
        encode_utf8(d.text@),
    )
}

/// The file of an image.
pub open spec fn media_entry(m: Media) -> (Seq<char>, Seq<u8>) {
    ("media/"@ + m.attachment_id@ + "."@ + m.extension@, m.bytes@)
}

/// The files of an export: the log, those of the sessions that come from it, and
/// the images.
pub open spec fn export_view(
    root: Seq<char>,
    descendants: Seq<Descendant>,
    media: Seq<Media>,
) -> Seq<(Seq<char>, Seq<u8>)> {
    seq![("session.jsonl"@, encode_utf8(root))] + descendants.map_values(
        |d: Descendant| descendant_entry(d),
    ) + media.map_values(|m: Media| media_entry(m))
}

fn descendant_path(d: &Descendant) -> (r: String)
    ensures
        r@ == descendant_entry(*d).0,
{
    joined3("descendants/", safe_id(d.id.as_str()).as_str(), "/session.jsonl")
}

fn media_path(m: &Media) -> (r: String)
    ensures
        r@ == media_entry(*m).0,
{
    let mut path = joined3("media/", m.attachment_id.as_str(), ".");
    path.append(m.extension.as_str());
    path
}

/// Whether an archive can name a file by a path.
pub fn fits_entry_path(path: &str) -> (r: bool)
    ensures
        r == is_entry_path(path@),
{
    path.as_bytes_vec().len() <= 65535
}

/// Whether an archive can name the files of an export by their paths.
pub fn export_paths_fit(root: &str, descendants: &Vec<Descendant>, media: &Vec<Media>) -> (r: bool)
    ensures
        r == all_entry_paths(export_view(root@, descendants@, media@)),
{
    let ghost all = export_view(root@, descendants@, media@);
    let ghost n = descendants@.len();
    assert(all[0].0 == "session.jsonl"@);
    if !fits_entry_path("session.jsonl") {
        assert(!is_entry_path(all[0].0));
        return false;
    }
    let mut i: usize = 0;
    while i < descendants.len()
        invariant
            i <= descendants.len(),
            all == export_view(root@, descendants@, media@),
            forall|k: int| 0 <= k < i + 1 ==> is_entry_path((#[trigger] all[k]).0),
        decreases descendants.len() - i,
    {
        assert(all[i + 1] == descendant_entry(descendants@[i as int]));
        if !fits_entry_path(descendant_path(&descendants[i]).as_str()) {
            assert(!is_entry_path(all[i + 1].0));
            return false;
        }
        i = i + 1;
    }
    let mut k: usize = 0;
    while k < media.len()
        invariant
            k <= media.len(),
            n == descendants@.len(),
            all == export_view(root@, descendants@, media@),
            forall|j: int| 0 <= j < n + 1 + k ==> is_entry_path((#[trigger] all[j]).0),
        decreases media.len() - k,
    {
        assert(all[n + 1 + k] == media_entry(media@[k as int]));
        if !fits_entry_path(media_path(&media[k]).as_str()) {
            assert(!is_entry_path(all[n + 1 + k].0));
            return false;
        }
        k = k + 1;
    }
    assert(all.len() == n + 1 + media@.len());
    true
}

/// The files of an export.
pub fn export_entries(root: &str, descendants: &Vec<Descendant>, media: Vec<Media>) -> (r: Vec<
    ZipEntry,
>)
    ensures
        entry_views(r@) == export_view(root@, descendants@, media@),
{
    let ghost kin = descendants@.map_values(|d: Descendant| descendant_entry(d));
    let ghost pictures = media@.map_values(|m: Media| media_entry(m));
    let mut out: Vec<ZipEntry> = Vec::new();
    out.push(ZipEntry { path: "session.jsonl".to_owned(), bytes: root.as_bytes_vec() });
    let ghost first = seq![("session.jsonl"@, encode_utf8(root@))];
    proof {
        assert(entry_views(out@) =~= first);
        assert(first + kin.take(0) =~= first);
    }
    let mut i: usize = 0;
    while i < descendants.len()
        invariant
            i <= descendants.len(),
            kin == descendants@.map_values(|d: Descendant| descendant_entry(d)),
            entry_views(out@) == first + kin.take(i as int),
        decreases descendants.len() - i,
    {
        let d = &descendants[i];
        let path = descendant_path(d);
        let e = ZipEntry { path, bytes: d.text.as_str().as_bytes_vec() };
        proof {
            assert(kin[i as int] == (e.path@, e.bytes@));
            assert(entry_views(out@.push(e)) =~= entry_views(out@).push((e.path@, e.bytes@)));
            assert(first + kin.take(i + 1) =~= (first + kin.take(i as int)).push(kin[i as int]));
        }
        out.push(e);
        i = i + 1;
    }
    let ghost both = first + kin;
    proof {
        assert(kin.take(kin.len() as int) =~= kin);
        assert(both + pictures.take(0) =~= both);
    }
    let mut rest = media;
    let ghost mut k: int = 0;
    while rest.len() > 0
        invariant
            0 <= k,
            k + rest@.len() == media@.len(),
            rest@ == media@.skip(k),
            pictures == media@.map_values(|m: Media| media_entry(m)),
            entry_views(out@) == both + pictures.take(k),
        decreases rest.len(),
    {
        assert(media@.skip(k)[0] == media@[k]);
        let m = rest.remove(0);
        let path = media_path(&m);
        let e = ZipEntry { path, bytes: m.bytes };
        proof {
            assert(media@.skip(k).remove(0) =~= media@.skip(k + 1));
            assert(pictures[k] == (e.path@, e.bytes@));
            assert(entry_views(out@.push(e)) =~= entry_views(out@).push((e.path@, e.bytes@)));
            assert(both + pictures.take(k + 1) =~= (both + pictures.take(k)).push(pictures[k]));
            k = k + 1;
        }
        out.push(e);
    }
    assert(pictures.take(pictures.len() as int) =~= pictures);
    out
}

/// Exports a session: the archive holds the log, the logs of the sessions that
/// come from it, and the images.
pub fn export_session_zip(root: &str, descendants: &Vec<Descendant>, media: Vec<Media>) -> (r: Result<
    Vec<u8>,
    RpcError,
>)
    requires
        all_entry_paths(export_view(root@, descendants@, media@)),
    ensures
        match r {
            Ok(bytes) => archive_entries(bytes@) == export_view(root@, descendants@, media@),
            Err(e) => is_zip_failure(e@),
        },
        !paths_differ(export_view(root@, descendants@, media@)) ==> r is Err,
        paths_differ(export_view(root@, descendants@, media@)) && is_roomy(
            export_view(root@, descendants@, media@),
        ) ==> r is Ok,
{
    build_archive(&export_entries(root, descendants, media))
}

/// An export holds one file for each log and each image, and no other: the log of the
/// session under `session.jsonl`; the log of each session that comes from it, whose
/// bytes decode to its text; each image with its bytes.
pub proof fn law_export_holds_logs_and_images(
    root: Seq<char>,
    descendants: Seq<Descendant>,
    media: Seq<Media>,
)
    ensures
        ({
            let all = export_view(root, descendants, media);
            let n = descendants.len() as int;
            &&& all.len() == 1 + n + media.len()
            &&& all[0].0 == "session.jsonl"@ && decode_utf8(all[0].1) == root
            &&& forall|k: int|
                0 <= k < n ==> decode_utf8((#[trigger] all[1 + k]).1) == descendants[k].text@
            &&& forall|k: int|
                0 <= k < n ==> (#[trigger] all[1 + k]).0 == "descendants/"@ + path_safe(
                    descendants[k].id@,
                ) + "/session.jsonl"@
            &&& forall|k: int|
                0 <= k < media.len() ==> (#[trigger] all[1 + n + k]).1 == media[k].bytes@
            &&& forall|k: int|
                0 <= k < media.len() ==> (#[trigger] all[1 + n + k]).0 == "media/"@
                    + media[k].attachment_id@ + "."@ + media[k].extension@
        }),
{
    let all = export_view(root, descendants, media);
    let n = descendants.len() as int;
    encode_utf8_decode_utf8(root);
    assert forall|k: int| 0 <= k < n implies decode_utf8((#[trigger] all[1 + k]).1)
        == descendants[k].text@ by {
        encode_utf8_decode_utf8(descendants[k].text@);
        assert(all[1 + k] == descendant_entry(descendants[k]));
    }
    assert forall|k: int| 0 <= k < media.len() implies #[trigger] all[1 + n + k] == media_entry(
        media[k],
    ) by {}
}

/// What an archive of an export holds comes back out of it: the text of each log, and
/// the bytes of each image.
pub proof fn law_archive_gives_logs_back(
    bytes: Seq<u8>,
    root: Seq<char>,
    descendants: Seq<Descendant>,
    media: Seq<Media>,
)
    requires
        archive_entries(bytes) == export_view(root, descendants, media),
    ensures
        archive_entries(bytes).len() == 1 + descendants.len() + media.len(),
        decode_utf8(archive_entries(bytes)[0].1) == root,
        forall|k: int|
            0 <= k < descendants.len() ==> decode_utf8((#[trigger] archive_entries(bytes)[1 + k]).1)
                == descendants[k].text@,
        forall|k: int|
            0 <= k < media.len() ==> (#[trigger] archive_entries(bytes)[1 + descendants.len()
                + k]).1 == media[k].bytes@,
{
    law_export_holds_logs_and_images(root, descendants, media);
}

/// An id as part of a path keeps its length, and its letters, digits, hyphens and
/// underscores; anything else, slashes and dots among it, is an underscore.
pub proof fn law_exported_ids_are_safe(id: Seq<char>)
    ensures
        path_safe(id).len() == id.len(),
        forall|i: int|
            0 <= i < id.len() ==> {
                let c = id[i];
                let kept = ('0' <= c && c <= '9') || ('A' <= c && c <= 'Z') || ('a' <= c && c
                    <= 'z') || c == '-' || c == '_';
                (#[trigger] path_safe(id)[i]) == if kept {
                    c
                } else {
                    '_'
                }
            },
{
}

} // verus!
