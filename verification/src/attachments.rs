//! What is stored beside a session: images and files that its log refers to.
use base64::Engine;
use vstd::prelude::*;
use vstd::string::*;

use crate::events::{EventLog, EventView};
use crate::json::{
    Json, JsonTree, items_at, items_of, member, parse, parsed_value, says, text_of, trees,
};
use crate::proto::{ErrorView, RpcError, reasoned_view};
use crate::queue::{is_reference, is_reference_json};
use crate::text::{lines, lines_of, same};

verus! {

/// What `base64` makes of text in its standard alphabet, with padding.
pub uninterp spec fn base64_decoded(text: Seq<char>) -> Option<Seq<u8>>;

/// How `base64` writes bytes in its standard alphabet, with padding.
pub uninterp spec fn base64_encoded(bytes: Seq<u8>) -> Seq<char>;

/// `base64::Engine::decode` of the standard engine: the bytes that the text
/// stands for, under the name of that result, or nothing where it stands for
/// none.
#[verifier::external_body]
fn decode_base64(text: &str) -> (r: Option<Vec<u8>>)
    ensures
        match r {
            Some(v) => base64_decoded(text@) == Some(v@),
            None => base64_decoded(text@) is None,
        },
{
    base64::engine::general_purpose::STANDARD.decode(text).ok()
}

/// `base64::Engine::encode` of the standard engine: the named text of the bytes,
/// which decodes to them. The length of the text must be one that can be
/// counted.
#[verifier::external_body]
fn encode_base64(bytes: &Vec<u8>) -> (r: String)
    requires
        bytes@.len() <= usize::MAX / 4,
    ensures
        r@ == base64_encoded(bytes@),
        base64_decoded(r@) == Some(bytes@),
{
    base64::engine::general_purpose::STANDARD.encode(bytes)
}

/// Bytes as text.
pub fn to_base64(bytes: &Vec<u8>) -> (r: String)
    requires
        bytes@.len() <= usize::MAX / 4,
    ensures
        r@ == base64_encoded(bytes@),
        base64_decoded(r@) == Some(bytes@),
{
    encode_base64(bytes)
}

// What is submitted.

/// An image that is submitted.
#[derive(Debug, PartialEq)]
pub struct ImageUpload {
    pub data: Vec<u8>,
    pub media_type: String,
    pub name: Option<String>,
}

/// A file that is submitted.
#[derive(Debug, PartialEq)]
pub struct FileUpload {
    pub source_path: String,
    pub name: String,
}

/// What a prompt holds.
#[derive(Debug, PartialEq)]
pub struct Admitted {
    pub text: String,
    pub images: Vec<ImageUpload>,
    pub files: Vec<FileUpload>,
}

/// The model of an image that is submitted.
pub struct ImageView {
    pub data: Seq<u8>,
    pub media_type: Seq<char>,
    pub name: Option<Seq<char>>,
}

/// The model of a file that is submitted.
pub struct FileView {
    pub source_path: Seq<char>,
    pub name: Seq<char>,
}

/// The model of what a prompt holds.
pub struct AdmittedView {
    pub text: Seq<char>,
    pub images: Seq<ImageView>,
    pub files: Seq<FileView>,
}

impl View for ImageUpload {
    type V = ImageView;

    open spec fn view(&self) -> ImageView {
        ImageView {
            data: self.data@,
            media_type: self.media_type@,
            name: crate::interact::text_view(self.name),
        }
    }
}

impl View for FileUpload {
    type V = FileView;

    open spec fn view(&self) -> FileView {
        FileView { source_path: self.source_path@, name: self.name@ }
    }
}

pub open spec fn image_views(v: Seq<ImageUpload>) -> Seq<ImageView> {
    v.map_values(|i: ImageUpload| i@)
}

pub open spec fn file_views(v: Seq<FileUpload>) -> Seq<FileView> {
    v.map_values(|f: FileUpload| f@)
}

impl View for Admitted {
    type V = AdmittedView;

    open spec fn view(&self) -> AdmittedView {
        AdmittedView {
            text: self.text@,
            images: image_views(self.images@),
            files: file_views(self.files@),
        }
    }
}

/// A kind of image that is taken.
pub open spec fn is_image_type(s: Seq<char>) -> bool {
    s == "image/png"@ || s == "image/jpeg"@ || s == "image/webp"@ || s == "image/gif"@
}

/// Whether a kind of image is taken.
pub fn good_image_type(s: &str) -> (r: bool)
    ensures
        r == is_image_type(s@),
{
    same(s, "image/png") || same(s, "image/jpeg") || same(s, "image/webp") || same(s, "image/gif")
}

/// An image block of a prompt, given the bytes that its data stands for, or what
/// is wrong with it.
pub open spec fn image_from(part: JsonTree, decoded: Option<Seq<u8>>) -> Result<
    ImageView,
    ErrorView,
> {
    let kind = part.at("mediaType"@).as_text();
    if kind is None || !is_image_type(kind->0) {
        Err(
            reasoned_view(
                "attachment-error"@,
                "仅支持 PNG、JPG、WebP、GIF 格式的图片"@,
                "UNSUPPORTED_IMAGE_TYPE"@,
            ),
        )
    } else {
        match decoded {
            Some(data) if data.len() > 0 => Ok(
                ImageView { data, media_type: kind->0, name: part.at("name"@).as_text() },
            ),
            _ => Err(
                reasoned_view("attachment-error"@, "图片编码无效"@, "INVALID_IMAGE_BASE64"@),
            ),
        }
    }
}

/// The bytes that the data of a block stands for.
pub open spec fn block_bytes(part: JsonTree) -> Option<Seq<u8>> {
    match part.at("data"@).as_text() {
        Some(d) => base64_decoded(d),
        None => None,
    }
}

/// A file block of a prompt, or what is wrong with it.
pub open spec fn file_from(part: JsonTree) -> Result<FileView, ErrorView> {
    match part.at("name"@).as_text() {
        Some(name) if name.len() > 0 => match part.at("sourcePath"@).as_text() {
            Some(source_path) => Ok(FileView { source_path, name }),
            None => Err(
                reasoned_view("attachment-error"@, "文件附件缺少源路径"@, "INVALID_FILE_SOURCE"@),
            ),
        },
        _ => Err(reasoned_view("attachment-error"@, "文件附件缺少名称"@, "INVALID_FILE_NAME"@)),
    }
}

/// What a prompt holds after one more block; blocks of no known kind are passed
/// over.
pub open spec fn admit_part(a: AdmittedView, part: JsonTree) -> Result<AdmittedView, ErrorView> {
    let kind = part.at("type"@).as_text();
    if kind == Some("text"@) {
        Ok(AdmittedView { text: a.text + crate::json::text_at(part, "text"@), ..a })
    } else if kind == Some("image"@) {
        match image_from(part, block_bytes(part)) {
            Ok(i) => Ok(AdmittedView { images: a.images.push(i), ..a }),
            Err(e) => Err(e),
        }
    } else if kind == Some("file"@) {
        match file_from(part) {
            Ok(f) => Ok(AdmittedView { files: a.files.push(f), ..a }),
            Err(e) => Err(e),
        }
    } else {
        Ok(a)
    }
}

/// What the blocks of a prompt hold, or what is wrong with the first bad one.
pub open spec fn admitted(content: Seq<JsonTree>) -> Result<AdmittedView, ErrorView>
    decreases content.len(),
{
    if content.len() == 0 {
        Ok(AdmittedView { text: Seq::empty(), images: Seq::empty(), files: Seq::empty() })
    } else {
        match admitted(content.drop_last()) {
            Ok(a) => admit_part(a, content.last()),
            Err(e) => Err(e),
        }
    }
}

/// Reads an image block, given the bytes that its data stands for.
pub fn read_image(part: &Json, decoded: Option<Vec<u8>>) -> (r: Result<ImageUpload, RpcError>)
    ensures
        match image_from(
            part@,
            match decoded {
                Some(v) => Some(v@),
                None => None,
            },
        ) {
            Ok(i) => r is Ok && r->Ok_0@ == i,
            Err(e) => r is Err && r->Err_0@ == e,
        },
{
    let media_type = match part.str_at("mediaType") {
        Some(s) => s,
        None => {
            return Err(
                RpcError::reasoned(
                    "attachment-error",
                    "仅支持 PNG、JPG、WebP、GIF 格式的图片",
                    "UNSUPPORTED_IMAGE_TYPE",
                ),
            );
        },
    };
    if !good_image_type(media_type) {
        return Err(
            RpcError::reasoned(
                "attachment-error",
                "仅支持 PNG、JPG、WebP、GIF 格式的图片",
                "UNSUPPORTED_IMAGE_TYPE",
            ),
        );
    }
    let data = match decoded {
        Some(v) => v,
        None => {
            return Err(
                RpcError::reasoned("attachment-error", "图片编码无效", "INVALID_IMAGE_BASE64"),
            );
        },
    };
    if data.len() == 0 {
        return Err(RpcError::reasoned("attachment-error", "图片编码无效", "INVALID_IMAGE_BASE64"));
    }
    let name = match part.str_at("name") {
        Some(s) => Some(s.to_owned()),
        None => None,
    };
    Ok(ImageUpload { data, media_type: media_type.to_owned(), name })
}

fn read_file(part: &Json) -> (r: Result<FileUpload, RpcError>)
    ensures
        match file_from(part@) {
            Ok(f) => r is Ok && r->Ok_0@ == f,
            Err(e) => r is Err && r->Err_0@ == e,
        },
{
    let name = match part.str_at("name") {
        Some(s) => s,
        None => "",
    };
    proof {
        reveal_strlit("");
    }
    if name.is_empty() {
        return Err(RpcError::reasoned("attachment-error", "文件附件缺少名称", "INVALID_FILE_NAME"));
    }
    match part.str_at("sourcePath") {
        Some(p) => Ok(FileUpload { source_path: p.to_owned(), name: name.to_owned() }),
        None => Err(
            RpcError::reasoned("attachment-error", "文件附件缺少源路径", "INVALID_FILE_SOURCE"),
        ),
    }
}

proof fn lemma_first_bad_part(content: Seq<JsonTree>, n: int, e: ErrorView)
    requires
        0 <= n <= content.len(),
        admitted(content.take(n)) == Err::<AdmittedView, ErrorView>(e),
    ensures
        admitted(content) == Err::<AdmittedView, ErrorView>(e),
    decreases content.len() - n,
{
    if n < content.len() {
        assert(content.take(n + 1).drop_last() =~= content.take(n));
        lemma_first_bad_part(content, n + 1, e);
    } else {
        assert(content.take(n) =~= content);
    }
}

/// Reads the blocks of a prompt.
pub fn read_content(content: &Vec<Json>) -> (r: Result<Admitted, RpcError>)
    ensures
        match admitted(trees(content@)) {
            Ok(a) => r is Ok && r->Ok_0@ == a,
            Err(e) => r is Err && r->Err_0@ == e,
        },
{
    let ghost all = trees(content@);
    let mut a = Admitted { text: String::new(), images: Vec::new(), files: Vec::new() };
    let mut i: usize = 0;
    proof {
        reveal_strlit("text");
        reveal_strlit("image");
        reveal_strlit("file");
        assert("text"@.len() == 4 && "image"@.len() == 5 && "file"@.len() == 4 && "text"@[0] == 't'
            && "file"@[0] == 'f');
        assert(all.take(0) =~= Seq::empty());
        assert(a@.images =~= Seq::empty());
        assert(a@.files =~= Seq::empty());
    }
    while i < content.len()
        invariant
            i <= content.len(),
            all == trees(content@),
            "text"@ != "image"@ && "text"@ != "file"@ && "image"@ != "file"@,
            admitted(all.take(i as int)) == Ok::<AdmittedView, ErrorView>(a@),
        decreases content.len() - i,
    {
        let part = &content[i];
        let ghost before = a@;
        proof {
            assert(all.take(i + 1).drop_last() =~= all.take(i as int));
            assert(all.take(i + 1).last() == part@);
        }
        if says(part, "type", "text") {
            let t = text_of(part, "text");
            a.text.append(t.as_str());
        } else if says(part, "type", "image") {
            let decoded: Option<Vec<u8>> = match part.str_at("data") {
                Some(d) => decode_base64(d),
                None => None,
            };
            match read_image(part, decoded) {
                Ok(image) => {
                    let ghost v = image@;
                    a.images.push(image);
                    assert(image_views(a.images@) =~= before.images.push(v));
                },
                Err(e) => {
                    proof {
                        lemma_first_bad_part(all, i + 1, e@);
                    }
                    return Err(e);
                },
            }
        } else if says(part, "type", "file") {
            match read_file(part) {
                Ok(file) => {
                    let ghost v = file@;
                    a.files.push(file);
                    assert(file_views(a.files@) =~= before.files.push(v));
                },
                Err(e) => {
                    proof {
                        lemma_first_bad_part(all, i + 1, e@);
                    }
                    return Err(e);
                },
            }
        }
        i = i + 1;
    }
    assert(all.take(all.len() as int) =~= all);
    Ok(a)
}

// What a log refers to.

/// The references of the image blocks among blocks.
pub open spec fn block_references(blocks: Seq<JsonTree>) -> Seq<JsonTree>
    decreases blocks.len(),
{
    if blocks.len() == 0 {
        Seq::empty()
    } else {
        let head = block_references(blocks.drop_last());
        let b = blocks.last();
        if b.at("type"@).as_text() == Some("image"@) && is_reference(b.at("attachment"@)) {
            head.push(b.at("attachment"@))
        } else {
            head
        }
    }
}

/// The references that inserted items have as images.
pub open spec fn inserted_references(items: Seq<JsonTree>) -> Seq<JsonTree>
    decreases items.len(),
{
    if items.len() == 0 {
        Seq::empty()
    } else {
        inserted_references(items.drop_last()) + crate::queue::references(
            items_at(items.last(), "images"@),
        )
    }
}

/// The references that an event makes: a message by its image blocks, a splice
/// by the items that it puts in, a result by its images.
pub open spec fn event_references(e: EventView) -> Seq<JsonTree> {
    if e.kind == "user/message"@ {
        block_references(items_at(e.data, "content"@))
    } else if e.kind == "agent/inbox/spliced"@ {
        inserted_references(items_at(e.data, "inserted"@))
    } else if e.kind == "tool/result"@ {
        crate::queue::references(items_at(e.data, "images"@))
    } else {
        Seq::empty()
    }
}

/// The first of some references that names something.
pub open spec fn naming(refs: Seq<JsonTree>, id: Seq<char>) -> Option<JsonTree>
    decreases refs.len(),
{
    if refs.len() == 0 {
        None
    } else if refs[0].at("attachmentId"@).as_text() == Some(id) {
        Some(refs[0])
    } else {
        naming(refs.drop_first(), id)
    }
}

/// The first reference that a log makes to something.
pub open spec fn log_reference(log: Seq<EventView>, id: Seq<char>) -> Option<JsonTree>
    decreases log.len(),
{
    if log.len() == 0 {
        None
    } else {
        match naming(event_references(log[0]), id) {
            Some(r) => Some(r),
            None => log_reference(log.drop_first(), id),
        }
    }
}

fn collect_block_references(blocks: &Vec<Json>) -> (r: Vec<Json>)
    ensures
        trees(r@) == block_references(trees(blocks@)),
{
    let ghost all = trees(blocks@);
    let mut out: Vec<Json> = Vec::new();
    let mut i: usize = 0;
    proof {
        assert(all.take(0) =~= Seq::empty());
        assert(trees(out@) =~= Seq::empty());
    }
    while i < blocks.len()
        invariant
            i <= blocks.len(),
            all == trees(blocks@),
            trees(out@) == block_references(all.take(i as int)),
        decreases blocks.len() - i,
    {
        proof {
            assert(all.take(i + 1).drop_last() =~= all.take(i as int));
            assert(all.take(i + 1).last() == blocks@[i as int]@);
        }
        if says(&blocks[i], "type", "image") {
            let reference = member(&blocks[i], "attachment");
            if is_reference_json(&reference) {
                assert(trees(out@.push(reference)) =~= trees(out@).push(reference@));
                out.push(reference);
            }
        }
        i = i + 1;
    }
    assert(all.take(all.len() as int) =~= all);
    out
}

fn append_all(out: &mut Vec<Json>, more: Vec<Json>)
    ensures
        trees(final(out)@) == trees(old(out)@) + trees(more@),
{
    let ghost before = out@;
    let mut rest = more;
    out.append(&mut rest);
    assert(trees(out@) =~= trees(before) + trees(more@));
}

fn collect_inserted_references(items: &Vec<Json>) -> (r: Vec<Json>)
    ensures
        trees(r@) == inserted_references(trees(items@)),
{
    let ghost all = trees(items@);
    let mut out: Vec<Json> = Vec::new();
    let mut i: usize = 0;
    proof {
        assert(all.take(0) =~= Seq::empty());
        assert(trees(out@) =~= Seq::empty());
    }
    while i < items.len()
        invariant
            i <= items.len(),
            all == trees(items@),
            trees(out@) == inserted_references(all.take(i as int)),
        decreases items.len() - i,
    {
        proof {
            assert(all.take(i + 1).drop_last() =~= all.take(i as int));
            assert(all.take(i + 1).last() == items@[i as int]@);
        }
        append_all(&mut out, crate::queue::references_of(&items[i], "images"));
        i = i + 1;
    }
    assert(all.take(all.len() as int) =~= all);
    out
}

fn find_naming(refs: &Vec<Json>, id: &str) -> (r: Option<Json>)
    ensures
        match r {
            Some(j) => naming(trees(refs@), id@) == Some(j@),
            None => naming(trees(refs@), id@) is None,
        },
{
    let ghost all = trees(refs@);
    let mut i: usize = 0;
    assert(all.skip(0) =~= all);
    while i < refs.len()
        invariant
            i <= refs.len(),
            all == trees(refs@),
            naming(all, id@) == naming(all.skip(i as int), id@),
        decreases refs.len() - i,
    {
        assert(all.skip(i as int)[0] == refs@[i as int]@);
        assert(all.skip(i as int).drop_first() =~= all.skip(i + 1));
        if says(&refs[i], "attachmentId", id) {
            return Some(refs[i].copy());
        }
        i = i + 1;
    }
    None
}

fn references_in(kind: &str, data: &Json) -> (r: Vec<Json>)
    ensures
        forall|e: EventView|
            e.kind == kind@ && e.data == data@ ==> trees(r@) == #[trigger] event_references(e),
{
    let none: Vec<Json> = Vec::new();
    assert(trees(none@) =~= Seq::empty());
    if same(kind, "user/message") {
        collect_block_references(items_of(data, "content", &none))
    } else if same(kind, "agent/inbox/spliced") {
        collect_inserted_references(items_of(data, "inserted", &none))
    } else if same(kind, "tool/result") {
        crate::queue::references_of(data, "images")
    } else {
        let empty: Vec<Json> = Vec::new();
        assert(trees(empty@) =~= Seq::empty());
        empty
    }
}

/// What is answered where a log does not refer to something.
pub open spec fn not_referenced() -> ErrorView {
    reasoned_view(
        "attachment-error"@,
        "attachment is not referenced by this session"@,
        "ATTACHMENT_NOT_REFERENCED"@,
    )
}

/// The first reference that a log makes to something: only what it refers to may
/// be read.
pub fn find_reference(log: &EventLog, attachment_id: &str) -> (r: Result<Json, RpcError>)
    ensures
        match log_reference(log@, attachment_id@) {
            Some(t) => r is Ok && r->Ok_0@ == t,
            None => r is Err && r->Err_0@ == not_referenced(),
        },
{
    let mut i: usize = 0;
    assert(log@.skip(0) =~= log@);
    while i < log.events.len()
        invariant
            i <= log.events.len(),
            log_reference(log@, attachment_id@) == log_reference(
                log@.skip(i as int),
                attachment_id@,
            ),
        decreases log.events.len() - i,
    {
        let ev = &log.events[i];
        assert(log@.skip(i as int)[0] == ev@);
        assert(log@.skip(i as int).drop_first() =~= log@.skip(i + 1));
        let refs = references_in(ev.kind.as_str(), &ev.data);
        assert(trees(refs@) == event_references(ev@));
        if let Some(hit) = find_naming(&refs, attachment_id) {
            return Ok(hit);
        }
        i = i + 1;
    }
    Err(
        RpcError::reasoned(
            "attachment-error",
            "attachment is not referenced by this session",
            "ATTACHMENT_NOT_REFERENCED",
        ),
    )
}

/// The answer that hands something stored over.
pub fn attachment_reply(reference: Json, bytes: &Vec<u8>) -> (r: Json)
    requires
        bytes@.len() <= usize::MAX / 4,
    ensures
        r@ == JsonTree::object().with("attachment"@, reference@).with(
            "data"@,
            JsonTree::Text(base64_encoded(bytes@)),
        ),
{
    Json::object().with("attachment", reference).with("data", Json::Text(to_base64(bytes)))
}

// What an export takes along.

/// An image of an inserted item as a reference: it may stand in a block.
pub open spec fn unwrapped(c: JsonTree) -> JsonTree {
    if c.at("type"@).as_text() == Some("image"@) {
        c.at("attachment"@)
    } else {
        c
    }
}

/// The references among images, each of which may stand in a block.
pub open spec fn image_references(images: Seq<JsonTree>) -> Seq<JsonTree>
    decreases images.len(),
{
    if images.len() == 0 {
        Seq::empty()
    } else {
        let head = image_references(images.drop_last());
        if is_reference(unwrapped(images.last())) {
            head.push(unwrapped(images.last()))
        } else {
            head
        }
    }
}

/// The references that inserted items have as images.
pub open spec fn inserted_images(items: Seq<JsonTree>) -> Seq<JsonTree>
    decreases items.len(),
{
    if items.len() == 0 {
        Seq::empty()
    } else {
        inserted_images(items.drop_last()) + image_references(items_at(items.last(), "images"@))
    }
}

/// The references that a line of a log makes.
pub open spec fn line_references(line: JsonTree) -> Seq<JsonTree> {
    let data = line.at("data"@);
    block_references(items_at(data, "content"@)) + inserted_images(items_at(data, "inserted"@))
}

/// Whether one of some references names the same as another.
pub open spec fn names_same(refs: Seq<JsonTree>, r: JsonTree) -> bool {
    exists|i: int|
        0 <= i < refs.len() && (#[trigger] refs[i]).at("attachmentId"@) == r.at("attachmentId"@)
}

/// References with those of more that name nothing that was named.
pub open spec fn gathered(refs: Seq<JsonTree>, more: Seq<JsonTree>) -> Seq<JsonTree>
    decreases more.len(),
{
    if more.len() == 0 {
        refs
    } else {
        let head = gathered(refs, more.drop_last());
        if names_same(head, more.last()) {
            head
        } else {
            head.push(more.last())
        }
    }
}

/// References with those that lines of a log make; lines that are no JSON are
/// passed over.
pub open spec fn gathered_lines(refs: Seq<JsonTree>, all: Seq<Seq<char>>) -> Seq<JsonTree>
    decreases all.len(),
{
    if all.len() == 0 {
        refs
    } else {
        let head = gathered_lines(refs, all.drop_last());
        match parsed_value(all.last()) {
            Ok(t) => gathered(head, line_references(t)),
            Err(_) => head,
        }
    }
}

fn collect_image_references(images: &Vec<Json>) -> (r: Vec<Json>)
    ensures
        trees(r@) == image_references(trees(images@)),
{
    let ghost all = trees(images@);
    let mut out: Vec<Json> = Vec::new();
    let mut i: usize = 0;
    proof {
        assert(all.take(0) =~= Seq::empty());
        assert(trees(out@) =~= Seq::empty());
    }
    while i < images.len()
        invariant
            i <= images.len(),
            all == trees(images@),
            trees(out@) == image_references(all.take(i as int)),
        decreases images.len() - i,
    {
        proof {
            assert(all.take(i + 1).drop_last() =~= all.take(i as int));
            assert(all.take(i + 1).last() == images@[i as int]@);
        }
        let reference = if says(&images[i], "type", "image") {
            member(&images[i], "attachment")
        } else {
            images[i].copy()
        };
        if is_reference_json(&reference) {
            assert(trees(out@.push(reference)) =~= trees(out@).push(reference@));
            out.push(reference);
        }
        i = i + 1;
    }
    assert(all.take(all.len() as int) =~= all);
    out
}

fn collect_inserted_images(items: &Vec<Json>) -> (r: Vec<Json>)
    ensures
        trees(r@) == inserted_images(trees(items@)),
{
    let ghost all = trees(items@);
    let mut out: Vec<Json> = Vec::new();
    let mut i: usize = 0;
    proof {
        assert(all.take(0) =~= Seq::empty());
        assert(trees(out@) =~= Seq::empty());
    }
    while i < items.len()
        invariant
            i <= items.len(),
            all == trees(items@),
            trees(out@) == inserted_images(all.take(i as int)),
        decreases items.len() - i,
    {
        proof {
            assert(all.take(i + 1).drop_last() =~= all.take(i as int));
            assert(all.take(i + 1).last() == items@[i as int]@);
        }
        let none: Vec<Json> = Vec::new();
        append_all(&mut out, collect_image_references(items_of(&items[i], "images", &none)));
        i = i + 1;
    }
    assert(all.take(all.len() as int) =~= all);
    out
}

fn is_named(refs: &Vec<Json>, r: &Json) -> (b: bool)
    requires
        is_reference(r@),
        forall|i: int| 0 <= i < refs@.len() ==> is_reference((#[trigger] refs@[i])@),
    ensures
        b == names_same(trees(refs@), r@),
{
    let ghost all = trees(refs@);
    let id = text_of(r, "attachmentId");
    let mut i: usize = 0;
    while i < refs.len()
        invariant
            i <= refs.len(),
            all == trees(refs@),
            is_reference(r@),
            id@ == r@.at("attachmentId"@)->Text_0,
            forall|k: int| 0 <= k < refs@.len() ==> is_reference((#[trigger] refs@[k])@),
            forall|k: int|
                0 <= k < i ==> (#[trigger] all[k]).at("attachmentId"@) != r@.at("attachmentId"@),
        decreases refs.len() - i,
    {
        assert(all[i as int] == refs@[i as int]@);
        assert(is_reference(refs@[i as int]@));
        if says(&refs[i], "attachmentId", id.as_str()) {
            return true;
        }
        i = i + 1;
    }
    false
}

/// Adds the references that name nothing that was named.
fn gather(refs: &mut Vec<Json>, more: Vec<Json>)
    requires
        forall|i: int| 0 <= i < old(refs)@.len() ==> is_reference((#[trigger] old(refs)@[i])@),
        forall|i: int| 0 <= i < more@.len() ==> is_reference((#[trigger] more@[i])@),
    ensures
        forall|i: int| 0 <= i < final(refs)@.len() ==> is_reference((#[trigger] final(refs)@[i])@),
        trees(final(refs)@) == gathered(trees(old(refs)@), trees(more@)),
{
    let ghost base = trees(refs@);
    let ghost all = trees(more@);
    let mut rest = more;
    let ghost mut k: int = 0;
    assert(all.take(0) =~= Seq::empty());
    while rest.len() > 0
        invariant
            0 <= k,
            k + rest@.len() == more@.len(),
            rest@ == more@.skip(k),
            all == trees(more@),
            forall|i: int| 0 <= i < more@.len() ==> is_reference((#[trigger] more@[i])@),
            forall|i: int| 0 <= i < refs@.len() ==> is_reference((#[trigger] refs@[i])@),
            trees(refs@) == gathered(base, all.take(k)),
        decreases rest.len(),
    {
        assert(more@.skip(k)[0] == more@[k]);
        let r = rest.remove(0);
        proof {
            assert(more@.skip(k).remove(0) =~= more@.skip(k + 1));
            assert(is_reference(more@[k]@));
            assert(all.take(k + 1).drop_last() =~= all.take(k));
            assert(all.take(k + 1).last() == r@);
        }
        if !is_named(refs, &r) {
            assert(trees(refs@.push(r)) =~= trees(refs@).push(r@));
            refs.push(r);
        }
        proof {
            k = k + 1;
        }
    }
    assert(all.take(all.len() as int) =~= all);
}

proof fn lemma_references_are_references(blocks: Seq<JsonTree>, items: Seq<JsonTree>)
    ensures
        forall|i: int|
            0 <= i < block_references(blocks).len() ==> is_reference(
                #[trigger] block_references(blocks)[i],
            ),
        forall|i: int|
            0 <= i < inserted_images(items).len() ==> is_reference(
                #[trigger] inserted_images(items)[i],
            ),
    decreases blocks.len() + items.len(),
{
    if blocks.len() > 0 {
        lemma_references_are_references(blocks.drop_last(), items);
        let head = block_references(blocks.drop_last());
        let all = block_references(blocks);
        assert forall|i: int| 0 <= i < all.len() implies is_reference(#[trigger] all[i]) by {
            if i < head.len() {
                assert(all[i] == head[i]);
            }
        }
    } else if items.len() > 0 {
        lemma_references_are_references(blocks, items.drop_last());
        let head = inserted_images(items.drop_last());
        let tail = image_references(items_at(items.last(), "images"@));
        lemma_image_references(items_at(items.last(), "images"@));
        let all = inserted_images(items);
        assert forall|i: int| 0 <= i < all.len() implies is_reference(#[trigger] all[i]) by {
            if i < head.len() {
                assert(all[i] == head[i]);
            } else {
                assert(all[i] == tail[i - head.len()]);
            }
        }
    }
}

proof fn lemma_image_references(images: Seq<JsonTree>)
    ensures
        forall|i: int|
            0 <= i < image_references(images).len() ==> is_reference(
                #[trigger] image_references(images)[i],
            ),
    decreases images.len(),
{
    if images.len() > 0 {
        lemma_image_references(images.drop_last());
        let head = image_references(images.drop_last());
        let all = image_references(images);
        assert forall|i: int| 0 <= i < all.len() implies is_reference(#[trigger] all[i]) by {
            if i < head.len() {
                assert(all[i] == head[i]);
            }
        }
    }
}

/// Adds the references that a line of a log makes, given as a value.
pub fn collect_line_refs(line: &Json, refs: &mut Vec<Json>)
    requires
        forall|i: int| 0 <= i < old(refs)@.len() ==> is_reference((#[trigger] old(refs)@[i])@),
    ensures
        forall|i: int| 0 <= i < final(refs)@.len() ==> is_reference((#[trigger] final(refs)@[i])@),
        trees(final(refs)@) == gathered(trees(old(refs)@), line_references(line@)),
{
    let none: Vec<Json> = Vec::new();
    let data = member(line, "data");
    let mut more = collect_block_references(items_of(&data, "content", &none));
    append_all(&mut more, collect_inserted_images(items_of(&data, "inserted", &none)));
    proof {
        let blocks = items_at(data@, "content"@);
        let items = items_at(data@, "inserted"@);
        lemma_references_are_references(blocks, items);
        let all = line_references(line@);
        assert(trees(more@) == all);
        assert forall|i: int| 0 <= i < more@.len() implies is_reference((#[trigger] more@[i])@) by {
            assert(trees(more@)[i] == more@[i]@);
            if i < block_references(blocks).len() {
                assert(all[i] == block_references(blocks)[i]);
            } else {
                assert(all[i] == inserted_images(items)[i - block_references(blocks).len()]);
            }
        }
    }
    gather(refs, more);
}

/// Adds the references to images that the text of a log makes; of those that
/// name the same, one.
pub fn collect_image_refs(text: &str, refs: &mut Vec<Json>)
    requires
        forall|i: int| 0 <= i < old(refs)@.len() ==> is_reference((#[trigger] old(refs)@[i])@),
    ensures
        forall|i: int| 0 <= i < final(refs)@.len() ==> is_reference((#[trigger] final(refs)@[i])@),
        trees(final(refs)@) == gathered_lines(trees(old(refs)@), lines_of(text@)),
{
    let all = lines(text);
    let ghost views = lines_of(text@);
    let ghost base = trees(refs@);
    let mut i: usize = 0;
    assert(views.take(0) =~= Seq::empty());
    while i < all.len()
        invariant
            i <= all.len(),
            all@.map_values(|l: String| l@) == views,
            forall|k: int| 0 <= k < refs@.len() ==> is_reference((#[trigger] refs@[k])@),
            trees(refs@) == gathered_lines(base, views.take(i as int)),
        decreases all.len() - i,
    {
        proof {
            assert(views[i as int] == all@[i as int]@);
            assert(views.take(i + 1).drop_last() =~= views.take(i as int));
            assert(views.take(i + 1).last() == all@[i as int]@);
        }
        if let Ok(line) = parse(all[i].as_str()) {
            collect_line_refs(&line, refs);
        }
        i = i + 1;
    }
    assert(views.take(views.len() as int) =~= views);
}

/// Of the references that were gathered no two name the same.
pub proof fn law_gathered_name_each_once(refs: Seq<JsonTree>, more: Seq<JsonTree>)
    requires
        forall|i: int, j: int|
            0 <= i < j < refs.len() ==> (#[trigger] refs[i]).at("attachmentId"@) != (
            #[trigger] refs[j]).at("attachmentId"@),
    ensures
        forall|i: int, j: int|
            0 <= i < j < gathered(refs, more).len() ==> (#[trigger] gathered(refs, more)[i]).at(
                "attachmentId"@,
            ) != (#[trigger] gathered(refs, more)[j]).at("attachmentId"@),
    decreases more.len(),
{
    if more.len() > 0 {
        law_gathered_name_each_once(refs, more.drop_last());
        let head = gathered(refs, more.drop_last());
        let all = gathered(refs, more);
        if !names_same(head, more.last()) {
            assert forall|i: int, j: int| 0 <= i < j < all.len() implies (#[trigger] all[i]).at(
                "attachmentId"@,
            ) != (#[trigger] all[j]).at("attachmentId"@) by {
                assert(all[i] == head[i]);
                if j < head.len() {
                    assert(all[j] == head[j]);
                }
            }
        }
    }
}

/// The ending of the file of an image.
pub open spec fn extension_of(media_type: Seq<char>) -> Option<Seq<char>> {
    if media_type == "image/png"@ {
        Some("png"@)
    } else if media_type == "image/jpeg"@ {
        Some("jpg"@)
    } else if media_type == "image/webp"@ {
        Some("webp"@)
    } else if media_type == "image/gif"@ {
        Some("gif"@)
    } else {
        None
    }
}

/// The ending of the file of an image.
pub fn image_extension(media_type: &str) -> (r: Option<String>)
    ensures
        crate::interact::text_view(r) == extension_of(media_type@),
{
    if same(media_type, "image/png") {
        Some("png".to_owned())
    } else if same(media_type, "image/jpeg") {
        Some("jpg".to_owned())
    } else if same(media_type, "image/webp") {
        Some("webp".to_owned())
    } else if same(media_type, "image/gif") {
        Some("gif".to_owned())
    } else {
        None
    }
}

/// What a prompt holds is what its first blocks hold and then what its others hold: the
/// texts one behind the other, and the images and the files in order. A bad block
/// refuses the prompt, and the first bad one says why.
pub proof fn law_blocks_are_admitted_in_order(a: Seq<JsonTree>, b: Seq<JsonTree>)
    ensures
        admitted(a + b) == match (admitted(a), admitted(b)) {
            (Ok(x), Ok(y)) => Ok::<AdmittedView, ErrorView>(
                AdmittedView {
                    text: x.text + y.text,
                    images: x.images + y.images,
                    files: x.files + y.files,
                },
            ),
            (Ok(_), Err(e)) => Err(e),
            (Err(e), _) => Err(e),
        },
    decreases b.len(),
{
    if b.len() == 0 {
        assert(a + b =~= a);
        if admitted(a) is Ok {
            let x = admitted(a)->Ok_0;
            let y = admitted(b)->Ok_0;
            assert(x.text + y.text =~= x.text);
            assert(x.images + y.images =~= x.images);
            assert(x.files + y.files =~= x.files);
        }
    } else {
        let rest = b.drop_last();
        let part = b.last();
        law_blocks_are_admitted_in_order(a, rest);
        assert((a + b).drop_last() =~= a + rest);
        assert((a + b).last() == part);
        if admitted(a) is Ok && admitted(rest) is Ok {
            let x = admitted(a)->Ok_0;
            let y = admitted(rest)->Ok_0;
            let text = crate::json::text_at(part, "text"@);
            assert(x.text + y.text + text =~= x.text + (y.text + text));
            assert(forall|i: ImageView|
                #[trigger] (x.images + y.images).push(i) =~= x.images + y.images.push(i));
            assert(forall|f: FileView|
                #[trigger] (x.files + y.files).push(f) =~= x.files + y.files.push(f));
        }
    }
}

/// What a single block holds. A text block holds its text. An image block of a kind that
/// is taken holds the bytes that its data stands for, its kind and its name; it is refused
/// where the kind is another, or where the data stands for nothing. A file block holds
/// its path and its name, which it must have. Any other block holds nothing.
pub proof fn law_block_holds_what_it_says(part: JsonTree)
    ensures
        ({
            let r = admitted(seq![part]);
            let kind = part.at("type"@);
            let media = part.at("mediaType"@);
            let taken = media == JsonTree::Text("image/png"@) || media == JsonTree::Text(
                "image/jpeg"@,
            ) || media == JsonTree::Text("image/webp"@) || media == JsonTree::Text("image/gif"@);
            let data = base64_decoded(part.at("data"@)->Text_0);
            let good_data = part.at("data"@) is Text && data is Some && data->0.len() > 0;
            let good_file = part.at("name"@) is Text && part.at("name"@)->Text_0.len() > 0
                && part.at("sourcePath"@) is Text;
            &&& kind == JsonTree::Text("text"@) ==> (r matches Ok(a) && a.images.len() == 0
                && a.files.len() == 0 && (part.at("text"@) is Text ==> a.text == part.at(
                "text"@,
            )->Text_0))
            &&& kind == JsonTree::Text("image"@) ==> (r is Ok <==> taken && good_data)
            &&& kind == JsonTree::Text("image"@) && r is Ok ==> r->Ok_0.text.len() == 0
                && r->Ok_0.files.len() == 0 && r->Ok_0.images.len() == 1 && r->Ok_0.images[0].data
                == data->0 && media == JsonTree::Text(r->Ok_0.images[0].media_type)
                && r->Ok_0.images[0].name == part.at("name"@).as_text()
            &&& kind == JsonTree::Text("file"@) ==> (r is Ok <==> good_file)
            &&& kind == JsonTree::Text("file"@) && r is Ok ==> r->Ok_0.text.len() == 0
                && r->Ok_0.images.len() == 0 && r->Ok_0.files.len() == 1 && part.at("name"@)
                == JsonTree::Text(r->Ok_0.files[0].name) && part.at("sourcePath"@) == JsonTree::Text(
                r->Ok_0.files[0].source_path,
            )
            &&& r matches Err(e) ==> e.code == "attachment-error"@
            &&& kind != JsonTree::Text("text"@) && kind != JsonTree::Text("image"@) && kind
                != JsonTree::Text("file"@) ==> (r matches Ok(a) && a.text.len() == 0
                && a.images.len() == 0 && a.files.len() == 0)
        }),
{
    reveal_strlit("text");
    reveal_strlit("image");
    reveal_strlit("file");
    assert("text"@.len() == 4 && "image"@.len() == 5 && "file"@.len() == 4 && "text"@[0] == 't'
        && "file"@[0] == 'f');
    reveal_with_fuel(admitted, 2);
    assert(seq![part].drop_last() =~= Seq::empty());
    assert(seq![part].last() == part);
    let none = admitted(Seq::<JsonTree>::empty())->Ok_0;
    let text = crate::json::text_at(part, "text"@);
    assert(none.text + text =~= text);
}

proof fn lemma_naming(refs: Seq<JsonTree>, id: Seq<char>)
    ensures
        naming(refs, id) matches Some(r) ==> refs.contains(r) && r.at("attachmentId"@)
            == JsonTree::Text(id),
        naming(refs, id) is None ==> forall|i: int|
            0 <= i < refs.len() ==> (#[trigger] refs[i]).at("attachmentId"@) != JsonTree::Text(id),
    decreases refs.len(),
{
    if refs.len() > 0 {
        let rest = refs.drop_first();
        lemma_naming(rest, id);
        if refs[0].at("attachmentId"@).as_text() != Some(id) {
            match naming(rest, id) {
                Some(r) => {
                    let k = choose|k: int| 0 <= k < rest.len() && rest[k] == r;
                    assert(refs[k + 1] == r);
                },
                None => {
                    assert forall|i: int| 0 <= i < refs.len() implies (#[trigger] refs[i]).at(
                        "attachmentId"@,
                    ) != JsonTree::Text(id) by {
                        if i > 0 {
                            assert(refs[i] == rest[i - 1]);
                        }
                    }
                },
            }
        }
    }
}

proof fn lemma_log_reference(log: Seq<EventView>, id: Seq<char>)
    ensures
        log_reference(log, id) matches Some(r) ==> r.at("attachmentId"@) == JsonTree::Text(id)
            && exists|i: int|
            0 <= i < log.len() && event_references(#[trigger] log[i]).contains(r),
        log_reference(log, id) is None ==> forall|i: int, k: int|
            0 <= i < log.len() && 0 <= k < event_references(log[i]).len() ==> (
            #[trigger] event_references(log[i])[k]).at("attachmentId"@) != JsonTree::Text(id),
    decreases log.len(),
{
    if log.len() > 0 {
        let rest = log.drop_first();
        lemma_log_reference(rest, id);
        lemma_naming(event_references(log[0]), id);
        if naming(event_references(log[0]), id) is None {
            match log_reference(rest, id) {
                Some(r) => {
                    let i = choose|i: int|
                        0 <= i < rest.len() && event_references(#[trigger] rest[i]).contains(r);
                    assert(log[i + 1] == rest[i]);
                    assert(event_references(log[i + 1]).contains(r));
                },
                None => {
                    assert forall|i: int, k: int|
                        0 <= i < log.len() && 0 <= k < event_references(log[i]).len() implies (
                    #[trigger] event_references(log[i])[k]).at("attachmentId"@) != JsonTree::Text(
                        id,
                    ) by {
                        if i > 0 {
                            assert(log[i] == rest[i - 1]);
                            assert(event_references(rest[i - 1])[k].at("attachmentId"@)
                                != JsonTree::Text(id));
                        }
                    }
                },
            }
        } else {
            assert(event_references(log[0]).contains(naming(event_references(log[0]), id)->0));
        }
    }
}

/// Whether a value is the reference of an image block among blocks.
pub open spec fn stands_in_block(blocks: Seq<JsonTree>, r: JsonTree) -> bool {
    exists|j: int|
        0 <= j < blocks.len() && (#[trigger] blocks[j]).at("type"@) == JsonTree::Text("image"@)
            && blocks[j].at("attachment"@) == r
}

/// Whether an event refers to something: a message by an image block, a splice by an
/// image of an item that it puts in, a result by one of its images.
pub open spec fn refers_to(e: EventView, r: JsonTree) -> bool {
    &&& r is Object && r.at("attachmentId"@) is Text
    &&& {
        ||| e.kind == "user/message"@ && stands_in_block(items_at(e.data, "content"@), r)
        ||| e.kind == "agent/inbox/spliced"@ && exists|i: int|
            0 <= i < items_at(e.data, "inserted"@).len() && items_at(
                #[trigger] items_at(e.data, "inserted"@)[i],
                "images"@,
            ).contains(r)
        ||| e.kind == "tool/result"@ && items_at(e.data, "images"@).contains(r)
    }
}

proof fn lemma_references_are(all: Seq<JsonTree>, r: JsonTree)
    ensures
        crate::queue::references(all).contains(r) <==> all.contains(r) && is_reference(r),
    decreases all.len(),
{
    let out = crate::queue::references(all);
    if all.len() > 0 {
        let rest = all.drop_last();
        let kept = crate::queue::references(rest);
        lemma_references_are(rest, r);
        if all.contains(r) && is_reference(r) {
            let k = choose|k: int| 0 <= k < all.len() && all[k] == r;
            if k < rest.len() {
                assert(rest[k] == r);
                let j = choose|j: int| 0 <= j < kept.len() && kept[j] == r;
                assert(out[j] == r);
            } else {
                assert(out[out.len() - 1] == r);
            }
        }
        if out.contains(r) {
            let j = choose|j: int| 0 <= j < out.len() && out[j] == r;
            if j < kept.len() {
                assert(kept[j] == r);
                let k = choose|k: int| 0 <= k < rest.len() && rest[k] == r;
                assert(all[k] == r);
            } else {
                assert(all[all.len() - 1] == r);
            }
        }
    }
}

proof fn lemma_block_references_are(blocks: Seq<JsonTree>, r: JsonTree)
    ensures
        block_references(blocks).contains(r) <==> stands_in_block(blocks, r) && is_reference(r),
    decreases blocks.len(),
{
    let out = block_references(blocks);
    if blocks.len() > 0 {
        let rest = blocks.drop_last();
        let kept = block_references(rest);
        let b = blocks.last();
        lemma_block_references_are(rest, r);
        if stands_in_block(blocks, r) && is_reference(r) {
            let k = choose|k: int|
                0 <= k < blocks.len() && (#[trigger] blocks[k]).at("type"@) == JsonTree::Text(
                    "image"@,
                ) && blocks[k].at("attachment"@) == r;
            if k < rest.len() {
                assert(rest[k] == blocks[k]);
                assert(stands_in_block(rest, r));
                let j = choose|j: int| 0 <= j < kept.len() && kept[j] == r;
                assert(out[j] == r);
            } else {
                assert(out[out.len() - 1] == r);
            }
        }
        if out.contains(r) {
            let j = choose|j: int| 0 <= j < out.len() && out[j] == r;
            if j < kept.len() {
                assert(kept[j] == r);
                let k = choose|k: int|
                    0 <= k < rest.len() && (#[trigger] rest[k]).at("type"@) == JsonTree::Text(
                        "image"@,
                    ) && rest[k].at("attachment"@) == r;
                assert(blocks[k] == rest[k]);
            } else {
                assert(blocks[blocks.len() - 1] == b);
            }
        }
    }
}

proof fn lemma_inserted_references_are(items: Seq<JsonTree>, r: JsonTree)
    ensures
        inserted_references(items).contains(r) <==> is_reference(r) && exists|i: int|
            0 <= i < items.len() && items_at(#[trigger] items[i], "images"@).contains(r),
    decreases items.len(),
{
    let out = inserted_references(items);
    if items.len() > 0 {
        let rest = items.drop_last();
        let kept = inserted_references(rest);
        let last = crate::queue::references(items_at(items.last(), "images"@));
        lemma_inserted_references_are(rest, r);
        lemma_references_are(items_at(items.last(), "images"@), r);
        assert(items[items.len() - 1] == items.last());
        if is_reference(r) && exists|i: int|
            0 <= i < items.len() && items_at(#[trigger] items[i], "images"@).contains(r) {
            let i = choose|i: int|
                0 <= i < items.len() && items_at(#[trigger] items[i], "images"@).contains(r);
            if i < rest.len() {
                assert(rest[i] == items[i]);
                let j = choose|j: int| 0 <= j < kept.len() && kept[j] == r;
                assert(out[j] == r);
            } else {
                let j = choose|j: int| 0 <= j < last.len() && last[j] == r;
                assert(out[kept.len() + j] == r);
            }
        }
        if out.contains(r) {
            let j = choose|j: int| 0 <= j < out.len() && out[j] == r;
            if j < kept.len() {
                assert(kept[j] == r);
                let i = choose|i: int|
                    0 <= i < rest.len() && items_at(#[trigger] rest[i], "images"@).contains(r);
                assert(items[i] == rest[i]);
            } else {
                assert(last[j - kept.len()] == r);
            }
        }
    }
}

proof fn lemma_event_references_are(e: EventView, r: JsonTree)
    ensures
        event_references(e).contains(r) <==> refers_to(e, r),
{
    reveal_strlit("user/message");
    reveal_strlit("agent/inbox/spliced");
    reveal_strlit("tool/result");
    assert("user/message"@.len() == 12 && "agent/inbox/spliced"@.len() == 19
        && "tool/result"@.len() == 11);
    lemma_block_references_are(items_at(e.data, "content"@), r);
    lemma_inserted_references_are(items_at(e.data, "inserted"@), r);
    lemma_references_are(items_at(e.data, "images"@), r);
}

/// Only what a session refers to can be read: something is found exactly where an event
/// of the log refers to it, and what is found is what that event refers to.
pub proof fn law_only_what_is_referred_to_is_found(log: Seq<EventView>, id: Seq<char>)
    ensures
        log_reference(log, id) is Some <==> exists|i: int, r: JsonTree|
            0 <= i < log.len() && #[trigger] refers_to(log[i], r) && r.at("attachmentId"@)
                == JsonTree::Text(id),
        log_reference(log, id) matches Some(r) ==> r.at("attachmentId"@) == JsonTree::Text(id)
            && exists|i: int| 0 <= i < log.len() && refers_to(#[trigger] log[i], r),
{
    lemma_log_reference(log, id);
    match log_reference(log, id) {
        Some(r) => {
            let i = choose|i: int|
                0 <= i < log.len() && event_references(#[trigger] log[i]).contains(r);
            lemma_event_references_are(log[i], r);
            assert(refers_to(log[i], r));
        },
        None => {
            assert forall|i: int, r: JsonTree|
                0 <= i < log.len() && #[trigger] refers_to(log[i], r) implies r.at("attachmentId"@)
                != JsonTree::Text(id) by {
                lemma_event_references_are(log[i], r);
                let all = event_references(log[i]);
                let k = choose|k: int| 0 <= k < all.len() && all[k] == r;
                assert(event_references(log[i])[k].at("attachmentId"@) != JsonTree::Text(id));
            }
        },
    }
}

/// Gathering loses nothing and makes nothing up: what was gathered before stays in
/// front, each of the others is there under its name, and all that is there comes from
/// the one or the other.
pub proof fn law_gathering_is_complete(refs: Seq<JsonTree>, more: Seq<JsonTree>)
    ensures
        refs.len() <= gathered(refs, more).len(),
        gathered(refs, more).take(refs.len() as int) == refs,
        forall|i: int| 0 <= i < more.len() ==> names_same(gathered(refs, more), #[trigger] more[i]),
        forall|j: int|
            refs.len() <= j < gathered(refs, more).len() ==> more.contains(
                #[trigger] gathered(refs, more)[j],
            ),
    decreases more.len(),
{
    if more.len() == 0 {
        assert(refs.take(refs.len() as int) =~= refs);
    } else {
        let rest = more.drop_last();
        law_gathering_is_complete(refs, rest);
        let head = gathered(refs, rest);
        let all = gathered(refs, more);
        assert(all.take(refs.len() as int) =~= head.take(refs.len() as int));
        assert forall|i: int| 0 <= i < more.len() implies names_same(all, #[trigger] more[i]) by {
            if i < rest.len() {
                assert(rest[i] == more[i]);
                let k = choose|k: int|
                    0 <= k < head.len() && (#[trigger] head[k]).at("attachmentId"@) == rest[i].at(
                        "attachmentId"@,
                    );
                assert(all[k] == head[k]);
            } else if !names_same(head, more.last()) {
                assert(all[all.len() - 1] == more[i]);
            }
        }
        assert forall|j: int| refs.len() <= j < all.len() implies more.contains(
            #[trigger] all[j],
        ) by {
            if j < head.len() {
                assert(all[j] == head[j]);
                let k = choose|k: int| 0 <= k < rest.len() && rest[k] == head[j];
                assert(more[k] == head[j]);
            } else {
                assert(more[more.len() - 1] == all[j]);
            }
        }
    }
}

/// An image of an item that was put in, as it is or in an image block.
pub open spec fn is_image_of(item: JsonTree, r: JsonTree) -> bool {
    exists|k: int|
        0 <= k < items_at(item, "images"@).len() && r == if (#[trigger] items_at(
            item,
            "images"@,
        )[k]).at("type"@) == JsonTree::Text("image"@) {
            items_at(item, "images"@)[k].at("attachment"@)
        } else {
            items_at(item, "images"@)[k]
        }
}

proof fn lemma_image_references_are(images: Seq<JsonTree>, r: JsonTree)
    ensures
        image_references(images).contains(r) <==> is_reference(r) && exists|k: int|
            0 <= k < images.len() && r == #[trigger] unwrapped(images[k]),
    decreases images.len(),
{
    let out = image_references(images);
    if images.len() > 0 {
        let rest = images.drop_last();
        let kept = image_references(rest);
        lemma_image_references_are(rest, r);
        assert(images[images.len() - 1] == images.last());
        if is_reference(r) && exists|k: int|
            0 <= k < images.len() && r == #[trigger] unwrapped(images[k]) {
            let k = choose|k: int| 0 <= k < images.len() && r == #[trigger] unwrapped(images[k]);
            if k < rest.len() {
                assert(rest[k] == images[k]);
                assert(r == unwrapped(rest[k]));
                let j = choose|j: int| 0 <= j < kept.len() && kept[j] == r;
                assert(out[j] == r);
            } else {
                assert(out[out.len() - 1] == r);
            }
        }
        if out.contains(r) {
            let j = choose|j: int| 0 <= j < out.len() && out[j] == r;
            if j < kept.len() {
                assert(kept[j] == r);
                let k = choose|k: int| 0 <= k < rest.len() && r == #[trigger] unwrapped(rest[k]);
                assert(unwrapped(images[k]) == r);
            } else {
                assert(unwrapped(images[images.len() - 1]) == r);
            }
        }
    }
}

proof fn lemma_inserted_images_are(items: Seq<JsonTree>, r: JsonTree)
    ensures
        inserted_images(items).contains(r) <==> is_reference(r) && exists|i: int|
            0 <= i < items.len() && is_image_of(#[trigger] items[i], r),
    decreases items.len(),
{
    let out = inserted_images(items);
    if items.len() > 0 {
        let rest = items.drop_last();
        let kept = inserted_images(rest);
        let images = items_at(items.last(), "images"@);
        let last = image_references(images);
        lemma_inserted_images_are(rest, r);
        lemma_image_references_are(images, r);
        assert(items[items.len() - 1] == items.last());
        assert(is_image_of(items.last(), r) <==> exists|k: int|
            0 <= k < images.len() && r == #[trigger] unwrapped(images[k])) by {
            if is_image_of(items.last(), r) {
                let k = choose|k: int|
                    0 <= k < images.len() && r == if (#[trigger] images[k]).at("type"@)
                        == JsonTree::Text("image"@) {
                        images[k].at("attachment"@)
                    } else {
                        images[k]
                    };
                assert(r == unwrapped(images[k]));
            }
            if exists|k: int| 0 <= k < images.len() && r == #[trigger] unwrapped(images[k]) {
                let k = choose|k: int| 0 <= k < images.len() && r == #[trigger] unwrapped(images[k]);
                assert(images[k] == images[k]);
            }
        }
        if is_reference(r) && exists|i: int|
            0 <= i < items.len() && is_image_of(#[trigger] items[i], r) {
            let i = choose|i: int| 0 <= i < items.len() && is_image_of(#[trigger] items[i], r);
            if i < rest.len() {
                assert(rest[i] == items[i]);
                let j = choose|j: int| 0 <= j < kept.len() && kept[j] == r;
                assert(out[j] == r);
            } else {
                let j = choose|j: int| 0 <= j < last.len() && last[j] == r;
                assert(out[kept.len() + j] == r);
            }
        }
        if out.contains(r) {
            let j = choose|j: int| 0 <= j < out.len() && out[j] == r;
            if j < kept.len() {
                assert(kept[j] == r);
                let i = choose|i: int| 0 <= i < rest.len() && is_image_of(#[trigger] rest[i], r);
                assert(items[i] == rest[i]);
            } else {
                assert(last[j - kept.len()] == r);
            }
        }
    }
}

/// What a line of a log refers to: the references of the image blocks of its content,
/// and of the images of the items that it puts in, and nothing else.
pub proof fn law_line_refers_to_its_images(line: JsonTree, r: JsonTree)
    ensures
        line_references(line).contains(r) <==> r is Object && r.at("attachmentId"@) is Text && (
        stands_in_block(items_at(line.at("data"@), "content"@), r) || exists|i: int|
            0 <= i < items_at(line.at("data"@), "inserted"@).len() && is_image_of(
                #[trigger] items_at(line.at("data"@), "inserted"@)[i],
                r,
            )),
{
    let data = line.at("data"@);
    let a = block_references(items_at(data, "content"@));
    let b = inserted_images(items_at(data, "inserted"@));
    lemma_block_references_are(items_at(data, "content"@), r);
    lemma_inserted_images_are(items_at(data, "inserted"@), r);
    let all = line_references(line);
    if a.contains(r) {
        let j = choose|j: int| 0 <= j < a.len() && a[j] == r;
        assert(all[j] == r);
    }
    if b.contains(r) {
        let j = choose|j: int| 0 <= j < b.len() && b[j] == r;
        assert(all[a.len() + j] == r);
    }
    if all.contains(r) {
        let j = choose|j: int| 0 <= j < all.len() && all[j] == r;
        if j < a.len() {
            assert(a[j] == r);
        } else {
            assert(b[j - a.len()] == r);
        }
    }
}

/// All lines of a log count: each line that is JSON has each of its references gathered
/// under its name, and what was gathered before stays.
pub proof fn law_all_lines_are_gathered(refs: Seq<JsonTree>, all: Seq<Seq<char>>)
    ensures
        refs.len() <= gathered_lines(refs, all).len(),
        gathered_lines(refs, all).take(refs.len() as int) == refs,
        forall|i: int, r: JsonTree|
            0 <= i < all.len() && parsed_value(all[i]) is Ok && #[trigger] line_references(
                parsed_value(all[i])->Ok_0,
            ).contains(r) ==> names_same(gathered_lines(refs, all), r),
    decreases all.len(),
{
    if all.len() == 0 {
        assert(refs.take(refs.len() as int) =~= refs);
    } else {
        let rest = all.drop_last();
        law_all_lines_are_gathered(refs, rest);
        let head = gathered_lines(refs, rest);
        let out = gathered_lines(refs, all);
        if parsed_value(all.last()) is Ok {
            law_gathering_is_complete(head, line_references(parsed_value(all.last())->Ok_0));
        } else {
            assert(head.take(head.len() as int) =~= head);
        }
        assert(out.take(head.len() as int) == head);
        assert(out.take(refs.len() as int) =~= head.take(refs.len() as int));
        assert forall|i: int, r: JsonTree|
            0 <= i < all.len() && parsed_value(all[i]) is Ok && #[trigger] line_references(
                parsed_value(all[i])->Ok_0,
            ).contains(r) implies names_same(out, r) by {
            if i < rest.len() {
                assert(rest[i] == all[i]);
                assert(names_same(head, r));
                let k = choose|k: int|
                    0 <= k < head.len() && (#[trigger] head[k]).at("attachmentId"@) == r.at(
                        "attachmentId"@,
                    );
                assert(out.take(head.len() as int)[k] == head[k]);
                assert(out[k] == head[k]);
            } else {
                let more = line_references(parsed_value(all.last())->Ok_0);
                let k = choose|k: int| 0 <= k < more.len() && more[k] == r;
                assert(names_same(out, more[k]));
            }
        }
    }
}

/// Each kind of image that is taken has an ending of its own; no other has one.
pub proof fn law_images_have_endings(a: Seq<char>, b: Seq<char>)
    ensures
        extension_of(a) is Some <==> a == "image/png"@ || a == "image/jpeg"@ || a == "image/webp"@
            || a == "image/gif"@,
        extension_of(a) is Some && a != b ==> extension_of(a) != extension_of(b),
        a == "image/png"@ ==> extension_of(a) == Some("png"@),
        a == "image/jpeg"@ ==> extension_of(a) == Some("jpg"@),
        a == "image/webp"@ ==> extension_of(a) == Some("webp"@),
        a == "image/gif"@ ==> extension_of(a) == Some("gif"@),
{
    reveal_strlit("png");
    reveal_strlit("jpg");
    reveal_strlit("webp");
    reveal_strlit("gif");
    reveal_strlit("image/png");
    reveal_strlit("image/jpeg");
    reveal_strlit("image/webp");
    reveal_strlit("image/gif");
    assert("png"@[0] == 'p' && "jpg"@[0] == 'j' && "webp"@[0] == 'w' && "gif"@[0] == 'g');
    assert("image/png"@[6] == 'p' && "image/jpeg"@[6] == 'j' && "image/webp"@[6] == 'w'
        && "image/gif"@[6] == 'g');
}

} // verus!
