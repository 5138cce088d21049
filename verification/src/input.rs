//! Input of users. Media are kept as data artifacts, and are never authority for a tool or
//! a policy.
use crate::digest::{digest_of, digest_of_text, law_texts_tell_digests_apart, Digest};
use crate::evolution::sanitize::{lemma_encode_push, lemma_width};
use crate::feedback::Disposition;
use crate::json::{
    add_item, add_member, lemma_items, member_at, member_value, models, notation, notes, object_members,
    parsed_json, plainly_noted, reversed,
    set_member_value, with_key, Json, JsonModel, Member, MemberModel,
};
use crate::split::{find_place, place_of};
use crate::text::{
    begins_with, byte_len, chars_of, has_prefix, lemma_ascii_precedes, same_text, string_of,
};
use vstd::prelude::*;
use vstd::utf8::encode_utf8;

verus! {

/// Why input is refused.
#[derive(Clone, Copy, Debug, PartialEq, Eq)]
pub enum InputError {
    /// The input itself.
    Invalid(&'static str),
    /// What was stored of it.
    Integrity(&'static str),
    /// A part that does not read as what it has to be.
    Json,
}

/// Input that is ready to be recorded.
#[derive(Debug)]
pub struct PreparedInput {
    pub text: String,
    pub messages: Vec<Json>,
    pub artifact: Digest,
}

/// Checks the number of the parts of an input.
pub fn check_parts(count: usize) -> (r: Result<(), InputError>)
    ensures
        r == if 1 <= count <= 64 {
            Ok::<(), InputError>(())
        } else {
            Err(InputError::Invalid("input requires 1..64 ordered content parts"))
        },
{
    if count == 0 || count > 64 {
        Err(InputError::Invalid("input requires 1..64 ordered content parts"))
    } else {
        Ok(())
    }
}

/// An input that is being prepared, part by part.
#[derive(Debug)]
pub struct InputBuilder {
    draft: Draft,
}

#[derive(Debug)]
struct Draft {
    text: String,
    parts: Vec<Json>,
    media_bytes: usize,
    images: usize,
    review_bytes: usize,
}

#[verifier::ext_equal]
pub struct BuilderModel {
    pub text: Seq<char>,
    pub parts: Seq<JsonModel>,
    pub media_bytes: int,
    pub images: int,
    pub review_bytes: int,
}

impl View for InputBuilder {
    type V = BuilderModel;

    closed spec fn view(&self) -> BuilderModel {
        self.draft.model()
    }
}

impl Draft {
    spec fn model(self) -> BuilderModel {
        BuilderModel {
            text: self.text@,
            parts: models(self.parts),
            media_bytes: self.media_bytes as int,
            images: self.images as int,
            review_bytes: self.review_bytes as int,
        }
    }
}

/// Whether what was taken is within its bounds.
pub open spec fn within_bounds(builder: BuilderModel) -> bool {
    &&& encode_utf8(builder.text).len() + builder.review_bytes <= 131072
    &&& 0 <= builder.review_bytes
    &&& 0 <= builder.media_bytes <= 4194304
    &&& 0 <= builder.images <= 8
}

/// A part that holds a text.
pub open spec fn text_part(text: Seq<char>) -> JsonModel {
    JsonModel::Object(
        Seq::<MemberModel>::empty().push(
            MemberModel { key: "text"@, value: JsonModel::Text(text) },
        ).push(MemberModel { key: "type"@, value: JsonModel::Text("input_text"@) }),
    )
}

fn make_text_part(text: &str) -> (r: Json)
    ensures
        r@ == text_part(text@),
{
    let mut members: Vec<Member> = Vec::new();
    assert(object_members(members) =~= Seq::<MemberModel>::empty());
    add_member(&mut members, "text", Json::Text(text.to_owned()));
    add_member(&mut members, "type", Json::Text("input_text".to_owned()));
    Json::Object(members)
}

/// A part that names a note on a review.
pub open spec fn review_part(digest: Digest) -> JsonModel {
    JsonModel::Object(
        Seq::<MemberModel>::empty().push(
            MemberModel { key: "digest"@, value: JsonModel::Text(digest.text()) },
        ).push(MemberModel { key: "type"@, value: JsonModel::Text("tact_review"@) }),
    )
}

/// A part that names an image.
pub open spec fn image_part(digest: Digest, mime: Seq<char>, detail: Seq<char>) -> JsonModel {
    JsonModel::Object(
        Seq::<MemberModel>::empty().push(
            MemberModel { key: "detail"@, value: JsonModel::Text(detail) },
        ).push(
            MemberModel { key: "digest"@, value: JsonModel::Text(digest.text()) },
        ).push(MemberModel { key: "mime"@, value: JsonModel::Text(mime) }).push(
            MemberModel { key: "type"@, value: JsonModel::Text("tact_image"@) },
        ),
    )
}

/// What standard base64 stands for, if it is such.
pub uninterp spec fn base64_bytes(text: Seq<char>) -> Option<Seq<u8>>;

/// `base64::Engine::decode` of `STANDARD` is a function of the text alone.
#[verifier::external_body]
pub(crate) fn decode_standard(text: &str) -> (r: Option<Vec<u8>>)
    ensures
        match r {
            Some(bytes) => base64_bytes(text@) == Some(bytes@),
            None => base64_bytes(text@) is None,
        },
{
    base64::Engine::decode(&base64::engine::general_purpose::STANDARD, text).ok()
}

/// The standard base64 of bytes.
pub uninterp spec fn base64_text(bytes: Seq<u8>) -> Seq<char>;

/// `base64::Engine::encode` of `STANDARD` is a function of the bytes alone.
#[verifier::external_body]
fn encode_standard(bytes: &[u8]) -> (r: String)
    ensures
        r@ == base64_text(bytes@),
{
    base64::Engine::encode(&base64::engine::general_purpose::STANDARD, bytes)
}

/// The media type and the base64 of an embedded image.
#[verifier::ext_equal]
pub struct DataUrl {
    pub mime: Seq<char>,
    pub encoded: Seq<char>,
}

/// Whether a text ends with another, behind a number of characters.
pub open spec fn ends_in(text: Seq<char>, end: Seq<char>) -> bool {
    text.len() >= end.len() && text.subrange(text.len() - end.len(), text.len() as int) == end
}

/// What an embedded image holds.
pub open spec fn data_url(url: Seq<char>) -> Result<DataUrl, InputError> {
    let at = place_of(url, ',', 0);
    if at >= url.len() {
        Err(InputError::Invalid("image input must be an embedded data URL"))
    } else {
        let header = url.subrange(0, at);
        let inner = header.subrange(5, header.len() as int);
        if !begins_with(header, "data:"@) || !ends_in(inner, ";base64"@) {
            Err(InputError::Invalid("image input must be base64 data"))
        } else {
            Ok(
                DataUrl {
                    mime: inner.subrange(0, inner.len() - 7),
                    encoded: url.subrange(at + 1, url.len() as int),
                },
            )
        }
    }
}

fn read_data_url(url: &str) -> (r: Result<(String, String), InputError>)
    ensures
        match (r, data_url(url@)) {
            (Ok((mime, encoded)), Ok(expected)) => mime@ == expected.mime && encoded@
                == expected.encoded,
            (Err(error), Err(expected)) => error == expected,
            _ => false,
        },
{
    let chars = chars_of(url);
    let at = find_place(&chars, ',', 0);
    if at >= chars.len() {
        return Err(InputError::Invalid("image input must be an embedded data URL"));
    }
    let header = string_of(&chars, 0, at);
    proof {
        reveal_strlit("data:");
        reveal_strlit(";base64");
    }
    if !has_prefix(header.as_str(), "data:") {
        return Err(InputError::Invalid("image input must be base64 data"));
    }
    let ghost inner = header@.subrange(5, header@.len() as int);
    if at < 12 {
        assert(inner.len() < 7);
        return Err(InputError::Invalid("image input must be base64 data"));
    }
    let end = string_of(&chars, at - 7, at);
    assert(end@ =~= inner.subrange(inner.len() - 7, inner.len() as int));
    if !same_text(end.as_str(), ";base64") {
        return Err(InputError::Invalid("image input must be base64 data"));
    }
    let mime = string_of(&chars, 5, at - 7);
    assert(mime@ =~= inner.subrange(0, inner.len() - 7));
    Ok((mime, string_of(&chars, at + 1, chars.len())))
}

/// Whether bytes stand at a place of others.
pub open spec fn stands_at(bytes: Seq<u8>, at: int, part: Seq<u8>) -> bool {
    at + part.len() <= bytes.len() && bytes.subrange(at, at + part.len()) == part
}

/// Whether the first bytes of an image are those of its media type.
pub open spec fn image_valid(mime: Seq<char>, bytes: Seq<u8>) -> bool {
    if mime == "image/png"@ {
        stands_at(bytes, 0, seq![137u8, 80, 78, 71, 13, 10, 26, 10])
    } else if mime == "image/jpeg"@ {
        stands_at(bytes, 0, seq![255u8, 216, 255])
    } else if mime == "image/gif"@ {
        stands_at(bytes, 0, seq![71u8, 73, 70, 56, 55, 97]) || stands_at(
            bytes,
            0,
            seq![71u8, 73, 70, 56, 57, 97],
        )
    } else if mime == "image/webp"@ {
        stands_at(bytes, 0, seq![82u8, 73, 70, 70]) && stands_at(
            bytes,
            8,
            seq![87u8, 69, 66, 80],
        )
    } else {
        false
    }
}

fn has_bytes(bytes: &Vec<u8>, at: usize, part: &[u8]) -> (r: bool)
    requires
        at <= 8,
        part@.len() <= 8,
    ensures
        r == stands_at(bytes@, at as int, part@),
{
    if at + part.len() > bytes.len() {
        return false;
    }
    let mut i: usize = 0;
    while i < part.len()
        invariant
            i <= part@.len() <= 8,
            at <= 8,
            at + part@.len() <= bytes@.len(),
            forall|j: int| 0 <= j < i ==> bytes@[at + j] == part@[j],
        decreases part@.len() - i,
    {
        if bytes[at + i] != part[i] {
            assert(bytes@.subrange(at as int, at + part@.len())[i as int] != part@[i as int]);
            return false;
        }
        i += 1;
    }
    assert(bytes@.subrange(at as int, at + part@.len()) =~= part@);
    true
}

fn is_image(mime: &str, bytes: &Vec<u8>) -> (r: bool)
    ensures
        r == image_valid(mime@, bytes@),
{
    let png: [u8; 8] = [137, 80, 78, 71, 13, 10, 26, 10];
    let jpeg: [u8; 3] = [255, 216, 255];
    let old_gif: [u8; 6] = [71, 73, 70, 56, 55, 97];
    let new_gif: [u8; 6] = [71, 73, 70, 56, 57, 97];
    let riff: [u8; 4] = [82, 73, 70, 70];
    let webp: [u8; 4] = [87, 69, 66, 80];
    assert(png@ =~= seq![137u8, 80, 78, 71, 13, 10, 26, 10]);
    assert(jpeg@ =~= seq![255u8, 216, 255]);
    assert(old_gif@ =~= seq![71u8, 73, 70, 56, 55, 97]);
    assert(new_gif@ =~= seq![71u8, 73, 70, 56, 57, 97]);
    assert(riff@ =~= seq![82u8, 73, 70, 70]);
    assert(webp@ =~= seq![87u8, 69, 66, 80]);
    if same_text(mime, "image/png") {
        has_bytes(bytes, 0, png.as_slice())
    } else if same_text(mime, "image/jpeg") {
        has_bytes(bytes, 0, jpeg.as_slice())
    } else if same_text(mime, "image/gif") {
        has_bytes(bytes, 0, old_gif.as_slice()) || has_bytes(bytes, 0, new_gif.as_slice())
    } else if same_text(mime, "image/webp") {
        has_bytes(bytes, 0, riff.as_slice()) && has_bytes(bytes, 8, webp.as_slice())
    } else {
        false
    }
}

/// What an image comes to, given what its base64 stands for: its media type, or why it is
/// refused.
pub open spec fn image_outcome(
    builder: BuilderModel,
    url: Seq<char>,
    detail: Seq<char>,
    decoded: Option<Seq<u8>>,
) -> Result<Seq<char>, InputError> {
    if detail != "auto"@ && detail != "low"@ && detail != "high"@ {
        Err(InputError::Invalid("unsupported image detail"))
    } else if builder.images + 1 > 8 || encode_utf8(url).len() > 12582912 {
        Err(InputError::Invalid("image input exceeds its bounds"))
    } else {
        match data_url(url) {
            Err(error) => Err(error),
            Ok(data) => match decoded {
                None => Err(InputError::Invalid("invalid image encoding")),
                Some(bytes) => if builder.media_bytes + bytes.len() > 4194304 {
                    Err(
                        InputError::Invalid(
                            "combined images exceed 4 MiB; resize before submission",
                        ),
                    )
                } else if !image_valid(data.mime, bytes) {
                    Err(InputError::Invalid("unsupported image media type or signature"))
                } else {
                    Ok(data.mime)
                },
            },
        }
    }
}

/// A part of an input.
#[derive(Debug, PartialEq, Eq)]
pub enum Content {
    Review { digest: Digest },
    Text { text: String },
    Image { image_url: String, detail: String },
}

/// What a part says.
pub enum ContentModel {
    Review { digest: Digest },
    Text { text: Seq<char> },
    Image { image_url: Seq<char>, detail: Seq<char> },
}

impl View for Content {
    type V = ContentModel;

    open spec fn view(&self) -> ContentModel {
        match self {
            Content::Review { digest } => ContentModel::Review { digest: *digest },
            Content::Text { text } => ContentModel::Text { text: text@ },
            Content::Image { image_url, detail } => ContentModel::Image {
                image_url: image_url@,
                detail: detail@,
            },
        }
    }
}

/// What a part makes of the input before it, or why it is refused. The body of the note that
/// a part names has so many bytes.
pub open spec fn part_taken(builder: BuilderModel, part: ContentModel, body: usize) -> Result<
    BuilderModel,
    InputError,
> {
    match part {
        ContentModel::Review { digest } => if builder.review_bytes + body + encode_utf8(
            builder.text,
        ).len() > 131072 {
            Err(InputError::Invalid("input text and review attachments exceed 128 KiB"))
        } else {
            Ok(
                BuilderModel {
                    review_bytes: builder.review_bytes + body,
                    parts: builder.parts.push(review_part(digest)),
                    ..builder
                },
            )
        },
        ContentModel::Text { text } => if encode_utf8(builder.text + text).len()
            + builder.review_bytes > 131072 {
            Err(InputError::Invalid("input text exceeds 128 KiB"))
        } else {
            Ok(
                BuilderModel {
                    text: builder.text + text,
                    parts: builder.parts.push(text_part(text)),
                    ..builder
                },
            )
        },
        ContentModel::Image { image_url, detail } => match image_outcome(
            builder,
            image_url,
            detail,
            image_bytes(image_url),
        ) {
            Err(error) => Err(error),
            Ok(mime) => {
                let bytes = image_bytes(image_url)->0;
                Ok(
                    BuilderModel {
                        images: builder.images + 1,
                        media_bytes: builder.media_bytes + bytes.len(),
                        parts: builder.parts.push(image_part(digest_of(bytes), mime, detail)),
                        ..builder
                    },
                )
            },
        },
    }
}

/// What the base64 of an embedded image stands for.
pub open spec fn image_bytes(url: Seq<char>) -> Option<Seq<u8>> {
    match data_url(url) {
        Ok(data) => base64_bytes(data.encoded),
        Err(_) => None,
    }
}

/// The message that parts make.
pub open spec fn message_of(parts: Seq<JsonModel>) -> JsonModel {
    JsonModel::Object(
        Seq::<MemberModel>::empty().push(
            MemberModel { key: "content"@, value: JsonModel::List(parts) },
        ).push(MemberModel { key: "role"@, value: JsonModel::Text("user"@) }),
    )
}

impl Draft {
    fn new() -> (r: Self)
        ensures
            r.model() == (BuilderModel {
                text: Seq::empty(),
                parts: Seq::empty(),
                media_bytes: 0,
                images: 0,
                review_bytes: 0,
            }),
            within_bounds(r.model()),
    {
        let text = String::new();
        proof {
            assert(encode_utf8(Seq::<char>::empty()).len() == 0);
            assert(text@ =~= Seq::<char>::empty());
        }
        let parts: Vec<Json> = Vec::new();
        assert(models(parts) =~= Seq::<JsonModel>::empty());
        Draft { text, parts, media_bytes: 0, images: 0, review_bytes: 0 }
    }

    fn review(&mut self, digest: Digest, body: usize) -> (r: Result<(), InputError>)
        requires
            within_bounds(old(self).model()),
        ensures
            ({
                let size = old(self).model().review_bytes + body;
                if size + encode_utf8(old(self).model().text).len() > 131072 {
                    &&& r == Err::<(), InputError>(
                        InputError::Invalid("input text and review attachments exceed 128 KiB"),
                    )
                    &&& final(self).model() == old(self).model()
                } else {
                    &&& r == Ok::<(), InputError>(())
                    &&& within_bounds(final(self).model())
                    &&& final(self).model() == (BuilderModel {
                        review_bytes: size,
                        parts: old(self).model().parts.push(review_part(digest)),
                        ..old(self).model()
                    })
                }
            }),
    {
        if body > 131072 || self.review_bytes + body + byte_len(self.text.as_str()) > 131072 {
            return Err(InputError::Invalid("input text and review attachments exceed 128 KiB"));
        }
        self.review_bytes = self.review_bytes + body;
        let mut members: Vec<Member> = Vec::new();
        assert(object_members(members) =~= Seq::<MemberModel>::empty());
        add_member(&mut members, "digest", Json::Text(digest.to_string()));
        add_member(&mut members, "type", Json::Text("tact_review".to_owned()));
        add_item(&mut self.parts, Json::Object(members));
        Ok(())
    }

    fn text(&mut self, part: &str) -> (r: Result<(), InputError>)
        requires
            within_bounds(old(self).model()),
        ensures
            ({
                let text = old(self).model().text + part@;
                if encode_utf8(text).len() + old(self).model().review_bytes > 131072 {
                    &&& r == Err::<(), InputError>(
                        InputError::Invalid("input text exceeds 128 KiB"),
                    )
                    &&& final(self).model() == old(self).model()
                } else {
                    &&& r == Ok::<(), InputError>(())
                    &&& within_bounds(final(self).model())
                    &&& final(self).model() == (BuilderModel {
                        text,
                        parts: old(self).model().parts.push(text_part(part@)),
                        ..old(self).model()
                    })
                }
            }),
    {
        let mut text = self.text.clone();
        text.push_str(part);
        let size = byte_len(text.as_str());
        if size > 131072 || size + self.review_bytes > 131072 {
            return Err(InputError::Invalid("input text exceeds 128 KiB"));
        }
        self.text = text;
        add_item(&mut self.parts, make_text_part(part));
        Ok(())
    }

    fn image_with(&mut self, url: &str, detail: &str, decoded: Option<Vec<u8>>) -> (r: Result<
        Vec<u8>,
        InputError,
    >)
        requires
            within_bounds(old(self).model()),
        ensures
            match (
                r,
                image_outcome(
                    old(self).model(),
                    url@,
                    detail@,
                    match decoded {
                        Some(bytes) => Some(bytes@),
                        None => None,
                    },
                ),
            ) {
                (Ok(bytes), Ok(mime)) => {
                    &&& decoded == Some(bytes)
                    &&& within_bounds(final(self).model())
                    &&& final(self).model() == (BuilderModel {
                        images: old(self).model().images + 1,
                        media_bytes: old(self).model().media_bytes + bytes@.len(),
                        parts: old(self).model().parts.push(
                            image_part(digest_of(bytes@), mime, detail@),
                        ),
                        ..old(self).model()
                    })
                },
                (Err(error), Err(expected)) => error == expected && final(self).model() == old(self).model(),
                _ => false,
            },
    {
        if !same_text(detail, "auto") && !same_text(detail, "low") && !same_text(detail, "high") {
            return Err(InputError::Invalid("unsupported image detail"));
        }
        if self.images + 1 > 8 || byte_len(url) > 12582912 {
            return Err(InputError::Invalid("image input exceeds its bounds"));
        }
        let (mime, _) = match read_data_url(url) {
            Err(error) => return Err(error),
            Ok(data) => data,
        };
        let bytes = match decoded {
            None => return Err(InputError::Invalid("invalid image encoding")),
            Some(bytes) => bytes,
        };
        if bytes.len() > 4194304 || self.media_bytes + bytes.len() > 4194304 {
            return Err(
                InputError::Invalid("combined images exceed 4 MiB; resize before submission"),
            );
        }
        if !is_image(mime.as_str(), &bytes) {
            return Err(InputError::Invalid("unsupported image media type or signature"));
        }
        self.images = self.images + 1;
        self.media_bytes = self.media_bytes + bytes.len();
        let digest = Digest::of(bytes.as_slice());
        let mut members: Vec<Member> = Vec::new();
        assert(object_members(members) =~= Seq::<MemberModel>::empty());
        add_member(&mut members, "detail", Json::Text(detail.to_owned()));
        add_member(&mut members, "digest", Json::Text(digest.to_string()));
        add_member(&mut members, "mime", Json::Text(mime));
        add_member(&mut members, "type", Json::Text("tact_image".to_owned()));
        add_item(&mut self.parts, Json::Object(members));
        Ok(bytes)
    }
}

impl InputBuilder {
    #[verifier::type_invariant]
    spec fn well_formed(self) -> bool {
        within_bounds(self@)
    }

    pub fn new() -> (r: Self)
        ensures
            r@ == (BuilderModel {
                text: Seq::empty(),
                parts: Seq::empty(),
                media_bytes: 0,
                images: 0,
                review_bytes: 0,
            }),
            within_bounds(r@),
    {
        InputBuilder { draft: Draft::new() }
    }

    /// Takes a note on a review, whose body has so many bytes.
    pub fn review(&mut self, digest: Digest, body: usize) -> (r: Result<(), InputError>)
        ensures
            ({
                let size = old(self)@.review_bytes + body;
                if size + encode_utf8(old(self)@.text).len() > 131072 {
                    &&& r == Err::<(), InputError>(
                        InputError::Invalid("input text and review attachments exceed 128 KiB"),
                    )
                    &&& final(self)@ == old(self)@
                } else {
                    &&& r == Ok::<(), InputError>(())
                    &&& within_bounds(final(self)@)
                    &&& final(self)@ == (BuilderModel {
                        review_bytes: size,
                        parts: old(self)@.parts.push(review_part(digest)),
                        ..old(self)@
                    })
                }
            }),
    {
        proof {
            use_type_invariant(&*self);
        }
        let mut draft = Draft::new();
        std::mem::swap(&mut draft, &mut self.draft);
        let r = draft.review(digest, body);
        self.draft = draft;
        r
    }

    /// Takes a text.
    pub fn text(&mut self, part: &str) -> (r: Result<(), InputError>)
        ensures
            ({
                let text = old(self)@.text + part@;
                if encode_utf8(text).len() + old(self)@.review_bytes > 131072 {
                    &&& r == Err::<(), InputError>(
                        InputError::Invalid("input text exceeds 128 KiB"),
                    )
                    &&& final(self)@ == old(self)@
                } else {
                    &&& r == Ok::<(), InputError>(())
                    &&& within_bounds(final(self)@)
                    &&& final(self)@ == (BuilderModel {
                        text,
                        parts: old(self)@.parts.push(text_part(part@)),
                        ..old(self)@
                    })
                }
            }),
    {
        proof {
            use_type_invariant(&*self);
        }
        let mut draft = Draft::new();
        std::mem::swap(&mut draft, &mut self.draft);
        let r = draft.text(part);
        self.draft = draft;
        r
    }

    /// Takes an image, given what its base64 stands for. Hands out its bytes.
    pub fn image_with(&mut self, url: &str, detail: &str, decoded: Option<Vec<u8>>) -> (r: Result<
        Vec<u8>,
        InputError,
    >)
        ensures
            match (
                r,
                image_outcome(
                    old(self)@,
                    url@,
                    detail@,
                    match decoded {
                        Some(bytes) => Some(bytes@),
                        None => None,
                    },
                ),
            ) {
                (Ok(bytes), Ok(mime)) => {
                    &&& decoded == Some(bytes)
                    &&& within_bounds(final(self)@)
                    &&& final(self)@ == (BuilderModel {
                        images: old(self)@.images + 1,
                        media_bytes: old(self)@.media_bytes + bytes@.len(),
                        parts: old(self)@.parts.push(
                            image_part(digest_of(bytes@), mime, detail@),
                        ),
                        ..old(self)@
                    })
                },
                (Err(error), Err(expected)) => error == expected && final(self)@ == old(self)@,
                _ => false,
            },
    {
        proof {
            use_type_invariant(&*self);
        }
        let mut draft = Draft::new();
        std::mem::swap(&mut draft, &mut self.draft);
        let r = draft.image_with(url, detail, decoded);
        self.draft = draft;
        r
    }

    /// Takes an image. Hands out its bytes.
    pub fn image(&mut self, url: &str, detail: &str) -> (r: Result<Vec<u8>, InputError>)
        ensures
            match (r, image_outcome(old(self)@, url@, detail@, image_bytes(url@))) {
                (Ok(bytes), Ok(mime)) => {
                    &&& image_bytes(url@) == Some(bytes@)
                    &&& within_bounds(final(self)@)
                    &&& final(self)@ == (BuilderModel {
                        images: old(self)@.images + 1,
                        media_bytes: old(self)@.media_bytes + bytes@.len(),
                        parts: old(self)@.parts.push(
                            image_part(digest_of(bytes@), mime, detail@),
                        ),
                        ..old(self)@
                    })
                },
                (Err(error), Err(expected)) => error == expected && final(self)@ == old(self)@,
                _ => false,
            },
    {
        let decoded = match read_data_url(url) {
            Err(_) => None,
            Ok((_, encoded)) => decode_standard(encoded.as_str()),
        };
        self.image_with(url, detail, decoded)
    }

    /// Takes a part; the body of the note that it names has so many bytes. Hands out the bytes
    /// of an image.
    pub fn take(&mut self, part: &Content, body: usize) -> (r: Result<Option<Vec<u8>>, InputError>)
        ensures
            match (r, part_taken(old(self)@, part@, body)) {
                (Ok(bytes), Ok(next)) => {
                    &&& final(self)@ == next
                    &&& match (bytes, part@) {
                        (Some(bytes), ContentModel::Image { image_url, detail }) => image_bytes(
                            image_url,
                        ) == Some(bytes@),
                        (Some(_), _) => false,
                        (None, part) => !(part is Image),
                    }
                },
                (Err(error), Err(expected)) => error == expected && final(self)@ == old(self)@,
                _ => false,
            },
    {
        match part {
            Content::Review { digest } => match self.review(*digest, body) {
                Err(error) => Err(error),
                Ok(()) => Ok(None),
            },
            Content::Text { text } => match self.text(text.as_str()) {
                Err(error) => Err(error),
                Ok(()) => Ok(None),
            },
            Content::Image { image_url, detail } => match self.image(
                image_url.as_str(),
                detail.as_str(),
            ) {
                Err(error) => Err(error),
                Ok(bytes) => Ok(Some(bytes)),
            },
        }
    }

    /// The input that was taken, as one message.
    pub fn finish(self) -> (r: PreparedInput)
        ensures
            r.text@ == self@.text,
            JsonModel::List(models(r.messages)) == recorded(self@),
            r.artifact == digest_of_text(notation(recorded(self@))),
    {
        let mut members: Vec<Member> = Vec::new();
        assert(object_members(members) =~= Seq::<MemberModel>::empty());
        add_member(&mut members, "content", Json::List(self.draft.parts));
        add_member(&mut members, "role", Json::Text("user".to_owned()));
        let mut messages: Vec<Json> = Vec::new();
        assert(models(messages) =~= Seq::<JsonModel>::empty());
        add_item(&mut messages, Json::Object(members));
        let list = Json::List(messages);
        let notes = list.to_text();
        let artifact = Digest::of_text(notes.as_str());
        let messages = match list {
            Json::List(messages) => messages,
            _ => Vec::new(),
        };
        PreparedInput { text: self.draft.text, messages, artifact }
    }
}

/// Whether a part of a recorded message is one of those that input is made of.
pub open spec fn part_known(part: JsonModel) -> bool {
    match part.text_member("type"@) {
        Some(kind) => kind == "input_text"@ || kind == "tact_image"@ || kind == "tact_review"@,
        None => false,
    }
}

/// The text of the first `n` parts.
pub open spec fn parts_text(parts: Seq<JsonModel>, n: int) -> Seq<char>
    decreases n,
{
    if n <= 0 {
        Seq::empty()
    } else {
        match parts[n - 1].text_member("text"@) {
            Some(text) => parts_text(parts, n - 1) + text,
            None => parts_text(parts, n - 1),
        }
    }
}

/// The text of recorded input, given what its artifact reads as.
pub open spec fn recorded_text(parsed: Option<JsonModel>) -> Result<Seq<char>, InputError> {
    match parsed {
        Some(JsonModel::List(messages)) => if messages.len() != 1 || messages[0].text_member(
            "role"@,
        ) != Some("user"@) {
            Err(InputError::Integrity("input artifact must contain one user message"))
        } else {
            match messages[0].list_member("content"@) {
                None => Err(InputError::Integrity("input artifact has no content parts")),
                Some(parts) => if parts.len() == 0 || exists|i: int|
                    0 <= i < parts.len() && !part_known(#[trigger] parts[i]) {
                    Err(InputError::Integrity("invalid input artifact content"))
                } else {
                    Ok(parts_text(parts, parts.len() as int))
                },
            }
        },
        _ => Err(InputError::Json),
    }
}

fn is_known(part: &Json) -> (r: bool)
    ensures
        r == part_known(part@),
{
    match part.text("type") {
        Some(kind) => same_text(kind, "input_text") || same_text(kind, "tact_image") || same_text(
            kind,
            "tact_review",
        ),
        None => false,
    }
}

fn join_text(parts: &Vec<Json>) -> (r: Option<String>)
    ensures
        match r {
            Some(text) => {
                &&& text@ == parts_text(models(*parts), parts@.len() as int)
                &&& forall|i: int| 0 <= i < parts@.len() ==> part_known(#[trigger] models(*parts)[i])
            },
            None => exists|i: int|
                0 <= i < parts@.len() && !part_known(#[trigger] models(*parts)[i]),
        },
{
    let ghost all = models(*parts);
    proof {
        lemma_items(*parts, parts@.len());
    }
    let mut text = String::new();
    let mut i: usize = 0;
    assert(text@ =~= Seq::<char>::empty());
    while i < parts.len()
        invariant
            i <= parts.len(),
            all == models(*parts),
            all.len() == parts@.len(),
            forall|j: int| 0 <= j < all.len() ==> #[trigger] all[j] == parts@[j]@,
            forall|j: int| 0 <= j < i ==> part_known(#[trigger] all[j]),
            text@ == parts_text(all, i as int),
        decreases parts.len() - i,
    {
        assert(all[i as int] == parts@[i as int]@);
        if !is_known(&parts[i]) {
            return None;
        }
        match parts[i].text("text") {
            Some(part) => text.push_str(part),
            None => {},
        }
        i += 1;
    }
    Some(text)
}

/// Reads recorded input back, given what its artifact reads as.
pub fn load_with(parsed: Option<Json>, artifact: Digest) -> (r: Result<PreparedInput, InputError>)
    ensures
        match (
            r,
            recorded_text(
                match parsed {
                    Some(value) => Some(value@),
                    None => None,
                },
            ),
        ) {
            (Ok(input), Ok(text)) => input.text@ == text && parsed is Some && parsed->0@
                == JsonModel::List(models(input.messages)) && input.artifact == artifact,
            (Err(error), Err(expected)) => error == expected,
            _ => false,
        },
{
    let messages = match parsed {
        Some(Json::List(messages)) => messages,
        _ => return Err(InputError::Json),
    };
    proof {
        lemma_items(messages, messages@.len());
    }
    if messages.len() != 1 {
        return Err(InputError::Integrity("input artifact must contain one user message"));
    }
    assert(models(messages)[0] == messages@[0]@);
    let user = match messages[0].text("role") {
        Some(role) => same_text(role, "user"),
        None => false,
    };
    if !user {
        return Err(InputError::Integrity("input artifact must contain one user message"));
    }
    let text = match messages[0].list("content") {
        None => return Err(InputError::Integrity("input artifact has no content parts")),
        Some(parts) => {
            proof {
                lemma_items(*parts, parts@.len());
            }
            if parts.len() == 0 {
                return Err(InputError::Integrity("invalid input artifact content"));
            }
            match join_text(parts) {
                Some(text) => text,
                None => return Err(InputError::Integrity("invalid input artifact content")),
            }
        },
    };
    Ok(PreparedInput { text, messages, artifact })
}

/// Whether the parts that were taken are of known kinds, are noted as they are read, and hold
/// the text that was taken.
pub open spec fn sound_parts(builder: BuilderModel) -> bool {
    &&& forall|i: int|
        0 <= i < builder.parts.len() ==> part_known(#[trigger] builder.parts[i]) && plainly_noted(
            builder.parts[i],
            61,
        )
    &&& parts_text(builder.parts, builder.parts.len() as int) == builder.text
}

proof fn lemma_member(members: Seq<MemberModel>, key: Seq<char>, i: int)
    requires
        member_at(members, key, i),
    ensures
        member_value(members, key) == Some(members[i].value),
{
    let found = choose|k: int| member_at(members, key, k);
    assert(member_at(members, key, found));
    assert(found == i);
}

/// What the parts of an input are, and the text that they hold.
proof fn lemma_parts(text: Seq<char>, digest: Digest, mime: Seq<char>, detail: Seq<char>)
    ensures
        part_known(text_part(text)),
        text_part(text).text_member("text"@) == Some(text),
        part_known(review_part(digest)),
        review_part(digest).text_member("text"@) is None,
        part_known(image_part(digest, mime, detail)),
        image_part(digest, mime, detail).text_member("text"@) is None,
        plainly_noted(text_part(text), 61),
        plainly_noted(review_part(digest), 61),
        plainly_noted(image_part(digest, mime, detail), 61),
{
    reveal_strlit("text");
    reveal_strlit("type");
    reveal_strlit("digest");
    reveal_strlit("detail");
    reveal_strlit("mime");
    assert("text"@[1] != "type"@[1]);
    assert("mime"@[0] != "type"@[0]);
    assert("mime"@[0] != "text"@[0]);
    lemma_member(text_part(text)->Object_0, "text"@, 0);
    lemma_member(text_part(text)->Object_0, "type"@, 1);
    lemma_member(review_part(digest)->Object_0, "type"@, 1);
    lemma_member(image_part(digest, mime, detail)->Object_0, "type"@, 3);
    lemma_ascii_precedes("text"@, "type"@, 1);
    lemma_ascii_precedes("digest"@, "type"@, 0);
    lemma_ascii_precedes("detail"@, "digest"@, 1);
    lemma_ascii_precedes("detail"@, "mime"@, 0);
    lemma_ascii_precedes("detail"@, "type"@, 0);
    lemma_ascii_precedes("digest"@, "mime"@, 0);
    lemma_ascii_precedes("mime"@, "type"@, 0);
    reveal_strlit("$serde_json::private::RawValue");
    reveal_with_fuel(plainly_noted, 2);
}

proof fn lemma_parts_text(parts: Seq<JsonModel>, part: JsonModel, n: int)
    requires
        0 <= n <= parts.len(),
    ensures
        parts_text(parts.push(part), n) == parts_text(parts, n),
    decreases n,
{
    if n > 0 {
        lemma_parts_text(parts, part, n - 1);
    }
}

/// Whatever an input takes, its parts stay of known kinds and hold its text, as they do
/// before anything is taken.
pub proof fn law_taken_parts_are_sound(
    builder: BuilderModel,
    text: Seq<char>,
    digest: Digest,
    mime: Seq<char>,
    detail: Seq<char>,
    review_bytes: int,
    media_bytes: int,
    images: int,
)
    requires
        sound_parts(builder),
    ensures
        sound_parts(
            BuilderModel {
                text: Seq::empty(),
                parts: Seq::empty(),
                media_bytes: 0,
                images: 0,
                review_bytes: 0,
            },
        ),
        sound_parts(
            BuilderModel {
                text: builder.text + text,
                parts: builder.parts.push(text_part(text)),
                ..builder
            },
        ),
        sound_parts(
            BuilderModel { review_bytes, parts: builder.parts.push(review_part(digest)), ..builder },
        ),
        sound_parts(
            BuilderModel {
                images,
                media_bytes,
                parts: builder.parts.push(image_part(digest, mime, detail)),
                ..builder
            },
        ),
{
    let n = builder.parts.len() as int;
    lemma_parts(text, digest, mime, detail);
    lemma_parts_text(builder.parts, text_part(text), n);
    lemma_parts_text(builder.parts, review_part(digest), n);
    lemma_parts_text(builder.parts, image_part(digest, mime, detail), n);
}

/// What was prepared is accepted when it is read back, with the same text.
pub proof fn law_prepared_inputs_are_loaded(builder: BuilderModel)
    requires
        sound_parts(builder),
        builder.parts.len() > 0,
    ensures
        recorded_text(Some(recorded(builder))) == Ok::<Seq<char>, InputError>(builder.text),
{
    reveal_strlit("content");
    reveal_strlit("role");
    lemma_member(message_of(builder.parts)->Object_0, "content"@, 0);
    assert("role"@.len() != "content"@.len());
    lemma_member(message_of(builder.parts)->Object_0, "role"@, 1);
}

/// What is recorded of an input.
pub open spec fn recorded(builder: BuilderModel) -> JsonModel {
    JsonModel::List(Seq::<JsonModel>::empty().push(message_of(builder.parts)))
}

proof fn lemma_recorded_plainly(builder: BuilderModel)
    requires
        sound_parts(builder),
    ensures
        plainly_noted(recorded(builder), 64),
{
    reveal_strlit("content");
    reveal_strlit("role");
    lemma_ascii_precedes("content"@, "role"@, 0);
    reveal_strlit("$serde_json::private::RawValue");
    let message = message_of(builder.parts);
    assert(plainly_noted(JsonModel::List(builder.parts), 62));
    assert(plainly_noted(JsonModel::Text("user"@), 62));
    assert(plainly_noted(message, 63));
}

/// Reads recorded input back. What was prepared and recorded is read back as it was.
pub fn load(bytes: &[u8], artifact: Digest) -> (r: Result<PreparedInput, InputError>)
    ensures
        match (r, recorded_text(parsed_json(bytes@))) {
            (Ok(input), Ok(text)) => input.text@ == text && parsed_json(bytes@) == Some(
                JsonModel::List(models(input.messages)),
            ) && input.artifact == artifact,
            (Err(error), Err(expected)) => error == expected,
            _ => false,
        },
        forall|builder: BuilderModel|
            sound_parts(builder) && builder.parts.len() > 0 && bytes@ == encode_utf8(
                notation(#[trigger] recorded(builder)),
            ) ==> {
                &&& r is Ok
                &&& r->Ok_0.text@ == builder.text
                &&& JsonModel::List(models(r->Ok_0.messages)) == recorded(builder)
            },
{
    let parsed = Json::parse(bytes);
    proof {
        assert forall|builder: BuilderModel|
            sound_parts(builder) && builder.parts.len() > 0 && bytes@ == encode_utf8(
                notation(#[trigger] recorded(builder)),
            ) implies {
            &&& parsed_json(bytes@) == Some(recorded(builder))
            &&& recorded_text(parsed_json(bytes@)) == Ok::<Seq<char>, InputError>(builder.text)
        } by {
            lemma_recorded_plainly(builder);
            assert(notes(bytes@, recorded(builder)));
            law_prepared_inputs_are_loaded(builder);
        }
    }
    load_with(parsed, artifact)
}

/// An image that a message names.
#[derive(Debug)]
pub struct LoadedImage {
    pub digest: Digest,
    pub bytes: Vec<u8>,
}

/// A note on a review that a message names.
#[derive(Debug)]
pub struct LoadedReview {
    pub digest: Digest,
    pub source_identity: Digest,
    pub disposition: Disposition,
    pub body: String,
}

/// The first of the images from one on with an identity.
pub open spec fn image_named(images: Seq<LoadedImage>, digest: Seq<char>, i: int) -> Option<
    LoadedImage,
>
    decreases images.len() - i,
{
    if i < 0 || i >= images.len() {
        None
    } else if images[i].digest.text() == digest {
        Some(images[i])
    } else {
        image_named(images, digest, i + 1)
    }
}

/// The first of the notes from one on with an identity.
pub open spec fn review_named(reviews: Seq<LoadedReview>, digest: Seq<char>, i: int) -> Option<
    LoadedReview,
>
    decreases reviews.len() - i,
{
    if i < 0 || i >= reviews.len() {
        None
    } else if reviews[i].digest.text() == digest {
        Some(reviews[i])
    } else {
        review_named(reviews, digest, i + 1)
    }
}

fn find_image<'a>(images: &'a Vec<LoadedImage>, digest: &str) -> (r: Option<&'a LoadedImage>)
    ensures
        match r {
            Some(image) => image_named(images@, digest@, 0) == Some(*image),
            None => image_named(images@, digest@, 0) is None,
        },
{
    let mut i: usize = 0;
    while i < images.len()
        invariant
            i <= images.len(),
            image_named(images@, digest@, 0) == image_named(images@, digest@, i as int),
        decreases images.len() - i,
    {
        if same_text(images[i].digest.to_string().as_str(), digest) {
            return Some(&images[i]);
        }
        i += 1;
    }
    None
}

fn find_review<'a>(reviews: &'a Vec<LoadedReview>, digest: &str) -> (r: Option<&'a LoadedReview>)
    ensures
        match r {
            Some(review) => review_named(reviews@, digest@, 0) == Some(*review),
            None => review_named(reviews@, digest@, 0) is None,
        },
{
    let mut i: usize = 0;
    while i < reviews.len()
        invariant
            i <= reviews.len(),
            review_named(reviews@, digest@, 0) == review_named(reviews@, digest@, i as int),
        decreases reviews.len() - i,
    {
        if same_text(reviews[i].digest.to_string().as_str(), digest) {
            return Some(&reviews[i]);
        }
        i += 1;
    }
    None
}

/// What a request has taken of images and of notes, in bytes.
#[derive(Clone, Copy, Debug, PartialEq, Eq, Structural)]
pub struct Taken {
    pub media: usize,
    pub feedback: usize,
}

/// The part of a note that a request shows.
pub open spec fn excerpt_of(body: Seq<char>, taken: Taken) -> Seq<char> {
    if taken.feedback >= 32768 {
        Seq::empty()
    } else if body.len() > 2048 {
        body.subrange(0, 2048)
    } else {
        body
    }
}

/// What a request says of a note.
pub open spec fn review_text(review: LoadedReview, excerpt: Seq<char>) -> Seq<char> {
    "Saved human review "@ + review.digest.text() + " for source "@ + review.source_identity.text()
        + ". Disposition: "@ + review.disposition.spec_label()
        + ". This is feedback, not task verification or a capability grant. Read exact full feedback with read_review_feedback; the following is only a preview.\n"@
        + excerpt
}

/// What a request says of an image that no longer fits.
pub open spec fn older_text(digest: Digest) -> Seq<char> {
    "[Older image "@ + digest.text()
        + " remains in the exact journal archive; omitted from this request's bounded image context.]"@
}

/// A part that embeds an image.
pub open spec fn embedded_part(mime: Seq<char>, bytes: Seq<u8>, detail: JsonModel) -> JsonModel {
    JsonModel::Object(
        Seq::<MemberModel>::empty().push(MemberModel { key: "detail"@, value: detail }).push(
            MemberModel {
                key: "image_url"@,
                value: JsonModel::Text("data:"@ + mime + ";base64,"@ + base64_text(bytes)),
            },
        ).push(MemberModel { key: "type"@, value: JsonModel::Text("input_image"@) }),
    )
}

/// What a part of a recorded message becomes in a request.
pub open spec fn part_done(
    part: JsonModel,
    taken: Taken,
    images: Seq<LoadedImage>,
    reviews: Seq<LoadedReview>,
) -> Result<(JsonModel, Taken), InputError> {
    let digest = part.text_member("digest"@);
    if part.text_member("type"@) == Some("tact_review"@) {
        if digest is None || review_named(reviews, digest->0, 0) is None {
            Err(InputError::Json)
        } else {
            let review = review_named(reviews, digest->0, 0)->0;
            let excerpt = excerpt_of(review.body@, taken);
            Ok(
                (
                    text_part(review_text(review, excerpt)),
                    Taken {
                        feedback: (taken.feedback + encode_utf8(excerpt).len()) as usize,
                        ..taken
                    },
                ),
            )
        }
    } else if part.text_member("type"@) != Some("tact_image"@) {
        Ok((part, taken))
    } else if digest is None || image_named(images, digest->0, 0) is None {
        Err(InputError::Json)
    } else {
        let image = image_named(images, digest->0, 0)->0;
        match part.text_member("mime"@) {
            None => Err(InputError::Integrity("image has no media type")),
            Some(mime) => if taken.media + image.bytes@.len() > 4194304 {
                Ok((text_part(older_text(image.digest)), taken))
            } else {
                Ok(
                    (
                        embedded_part(
                            mime,
                            image.bytes@,
                            match part.member("detail"@) {
                                Some(detail) => detail,
                                None => JsonModel::Null,
                            },
                        ),
                        Taken { media: (taken.media + image.bytes@.len()) as usize, ..taken },
                    ),
                )
            },
        }
    }
}

/// Whether what was taken is within what a request can take.
pub open spec fn taken_bounded(taken: Taken) -> bool {
    taken.media <= 4194304 && taken.feedback <= 40960
}

pub proof fn lemma_bytes_bounded(text: Seq<char>)
    ensures
        encode_utf8(text).len() <= 4 * text.len(),
    decreases text.len(),
{
    if text.len() > 0 {
        lemma_bytes_bounded(text.drop_last());
        lemma_encode_push(text.drop_last(), text.last());
        lemma_width(text.last());
        assert(text.drop_last().push(text.last()) =~= text);
    } else {
        assert(encode_utf8(text).len() == 0);
    }
}

fn take_excerpt(body: &str, taken: Taken) -> (r: String)
    ensures
        r@ == excerpt_of(body@, taken),
        encode_utf8(r@).len() <= 8192,
        taken.feedback >= 32768 ==> encode_utf8(r@).len() == 0,
{
    proof {
        lemma_bytes_bounded(excerpt_of(body@, taken));
    }
    if taken.feedback >= 32768 {
        let nothing = String::new();
        assert(nothing@ =~= Seq::<char>::empty());
        return nothing;
    }
    let chars = chars_of(body);
    let end: usize = if chars.len() > 2048 {
        2048
    } else {
        chars.len()
    };
    let excerpt = string_of(&chars, 0, end);
    assert(excerpt@ =~= excerpt_of(body@, taken));
    excerpt
}

fn show_review(review: &LoadedReview, excerpt: &str) -> (r: String)
    ensures
        r@ == review_text(*review, excerpt@),
{
    let mut text = "Saved human review ".to_owned();
    text.push_str(review.digest.to_string().as_str());
    text.push_str(" for source ");
    text.push_str(review.source_identity.to_string().as_str());
    text.push_str(". Disposition: ");
    text.push_str(review.disposition.label());
    text.push_str(
        ". This is feedback, not task verification or a capability grant. Read exact full feedback with read_review_feedback; the following is only a preview.\n",
    );
    text.push_str(excerpt);
    text
}

fn embed(mime: &str, bytes: &Vec<u8>, detail: Json) -> (r: Json)
    ensures
        r@ == embedded_part(mime@, bytes@, detail@),
{
    let mut url = "data:".to_owned();
    url.push_str(mime);
    url.push_str(";base64,");
    url.push_str(encode_standard(bytes.as_slice()).as_str());
    let mut members: Vec<Member> = Vec::new();
    assert(object_members(members) =~= Seq::<MemberModel>::empty());
    add_member(&mut members, "detail", detail);
    add_member(&mut members, "image_url", Json::Text(url));
    add_member(&mut members, "type", Json::Text("input_image".to_owned()));
    Json::Object(members)
}

fn is_kind(part: &Json, kind: &str) -> (r: bool)
    ensures
        r == (part@.text_member("type"@) == Some(kind@)),
{
    match part.text("type") {
        Some(found) => same_text(found, kind),
        None => false,
    }
}

fn do_part(
    part: Json,
    taken: Taken,
    images: &Vec<LoadedImage>,
    reviews: &Vec<LoadedReview>,
) -> (r: Result<(Json, Taken), InputError>)
    requires
        taken_bounded(taken),
    ensures
        match (r, part_done(part@, taken, images@, reviews@)) {
            (Ok((value, next)), Ok((expected, after))) => value@ == expected && next == after
                && taken_bounded(next),
            (Err(error), Err(expected)) => error == expected,
            _ => false,
        },
{
    if is_kind(&part, "tact_review") {
        let review = match part.text("digest") {
            None => return Err(InputError::Json),
            Some(digest) => match find_review(reviews, digest) {
                None => return Err(InputError::Json),
                Some(review) => review,
            },
        };
        let excerpt = take_excerpt(review.body.as_str(), taken);
        let text = show_review(review, excerpt.as_str());
        let next = Taken {
            media: taken.media,
            feedback: taken.feedback + byte_len(excerpt.as_str()),
        };
        return Ok((make_text_part(text.as_str()), next));
    }
    if !is_kind(&part, "tact_image") {
        return Ok((part, taken));
    }
    let image = match part.text("digest") {
        None => return Err(InputError::Json),
        Some(digest) => match find_image(images, digest) {
            None => return Err(InputError::Json),
            Some(image) => image,
        },
    };
    let mime = match part.text("mime") {
        None => return Err(InputError::Integrity("image has no media type")),
        Some(mime) => mime,
    };
    if image.bytes.len() > 4194304 || taken.media + image.bytes.len() > 4194304 {
        let mut text = "[Older image ".to_owned();
        text.push_str(image.digest.to_string().as_str());
        text.push_str(
            " remains in the exact journal archive; omitted from this request's bounded image context.]",
        );
        return Ok((make_text_part(text.as_str()), taken));
    }
    let detail = match part.get("detail") {
        Some(detail) => detail.copy(),
        None => Json::Null,
    };
    let next = Taken { media: taken.media + image.bytes.len(), feedback: taken.feedback };
    Ok((embed(mime, &image.bytes, detail), next))
}

/// What the first `n` parts of a message become in a request, from the last one on.
pub open spec fn parts_done(
    parts: Seq<JsonModel>,
    n: int,
    taken: Taken,
    images: Seq<LoadedImage>,
    reviews: Seq<LoadedReview>,
) -> Result<(Seq<JsonModel>, Taken), InputError>
    decreases n,
{
    if n <= 0 {
        Ok((Seq::empty(), taken))
    } else {
        match part_done(parts[n - 1], taken, images, reviews) {
            Err(error) => Err(error),
            Ok((part, next)) => match parts_done(parts, n - 1, next, images, reviews) {
                Err(error) => Err(error),
                Ok((earlier, after)) => Ok((earlier.push(part), after)),
            },
        }
    }
}

/// What earlier values and later ones, from the last one on, come to.
pub open spec fn joined(
    earlier: Result<(Seq<JsonModel>, Taken), InputError>,
    later: Seq<JsonModel>,
) -> Result<(Seq<JsonModel>, Taken), InputError> {
    match earlier {
        Err(error) => Err(error),
        Ok((earlier, taken)) => Ok((earlier + later.reverse(), taken)),
    }
}

proof fn lemma_joined(
    rest: Result<(Seq<JsonModel>, Taken), InputError>,
    value: JsonModel,
    later: Seq<JsonModel>,
)
    ensures
        joined(
            match rest {
                Err(error) => Err(error),
                Ok((earlier, after)) => Ok((earlier.push(value), after)),
            },
            later,
        ) == joined(rest, later.push(value)),
{
    assert(later.push(value).reverse() =~= Seq::empty().push(value) + later.reverse());
    if rest is Ok {
        let earlier = rest->Ok_0.0;
        assert(earlier.push(value) + later.reverse() =~= earlier + later.push(value).reverse());
    }
}

proof fn lemma_nothing_later(all: Result<(Seq<JsonModel>, Taken), InputError>)
    ensures
        joined(all, Seq::empty()) == all,
{
    assert(Seq::<JsonModel>::empty().reverse() =~= Seq::<JsonModel>::empty());
    if all is Ok {
        assert(all->Ok_0.0 + Seq::<JsonModel>::empty().reverse() =~= all->Ok_0.0);
    }
}

fn do_parts(
    parts: Vec<Json>,
    taken: Taken,
    images: &Vec<LoadedImage>,
    reviews: &Vec<LoadedReview>,
) -> (r: Result<(Vec<Json>, Taken), InputError>)
    requires
        taken_bounded(taken),
    ensures
        match (
            r,
            parts_done(models(parts), models(parts).len() as int, taken, images@, reviews@),
        ) {
            (Ok((values, next)), Ok((expected, after))) => models(values) == expected && next
                == after && taken_bounded(next),
            (Err(error), Err(expected)) => error == expected,
            _ => false,
        },
{
    let ghost given = parts@;
    let ghost all = models(parts);
    let ghost whole = parts_done(all, all.len() as int, taken, images@, reviews@);
    proof {
        lemma_items(parts, parts@.len());
    }
    let mut left = parts;
    let mut later: Vec<Json> = Vec::new();
    let mut state = taken;
    proof {
        lemma_items(later, 0);
        assert(models(later) =~= Seq::<JsonModel>::empty());
        lemma_nothing_later(whole);
    }
    while left.len() > 0
        invariant
            taken_bounded(state),
            all == models(parts),
            all.len() == given.len(),
            forall|i: int| 0 <= i < all.len() ==> all[i] == #[trigger] given[i]@,
            left@.len() <= given.len(),
            left@ == given.subrange(0, left@.len() as int),
            whole == parts_done(all, all.len() as int, taken, images@, reviews@),
            whole == joined(
                parts_done(all, left@.len() as int, state, images@, reviews@),
                models(later),
            ),
        decreases left.len(),
    {
        let ghost n = left@.len() as int;
        match left.pop() {
            Some(part) => {
                assert(part == given[n - 1]);
                assert(part@ == all[n - 1]);
                let (value, next) = match do_part(part, state, images, reviews) {
                    Err(error) => return Err(error),
                    Ok(done) => done,
                };
                proof {
                    lemma_joined(
                        parts_done(all, n - 1, next, images@, reviews@),
                        value@,
                        models(later),
                    );
                }
                add_item(&mut later, value);
                state = next;
                assert(left@ =~= given.subrange(0, n - 1));
            },
            None => {},
        }
    }
    let values = reversed(later);
    proof {
        assert(Seq::<JsonModel>::empty() + models(values) =~= models(values));
    }
    Ok((values, state))
}

/// What a message becomes in a request: only those of users hold media.
pub open spec fn message_done(
    message: JsonModel,
    taken: Taken,
    images: Seq<LoadedImage>,
    reviews: Seq<LoadedReview>,
) -> Result<(JsonModel, Taken), InputError> {
    match message {
        JsonModel::Object(members) => if message.text_member("role"@) != Some("user"@) {
            Ok((message, taken))
        } else {
            match message.member("content"@) {
                None => Ok(
                    (JsonModel::Object(with_key(members, "content"@, JsonModel::Null)), taken),
                ),
                Some(JsonModel::List(parts)) => match parts_done(
                    parts,
                    parts.len() as int,
                    taken,
                    images,
                    reviews,
                ) {
                    Err(error) => Err(error),
                    Ok((done, next)) => Ok(
                        (
                            JsonModel::Object(
                                with_key(members, "content"@, JsonModel::List(done)),
                            ),
                            next,
                        ),
                    ),
                },
                Some(_) => Ok((message, taken)),
            }
        },
        _ => Ok((message, taken)),
    }
}

/// What the first `n` messages become in a request, from the last one on.
pub open spec fn messages_done(
    messages: Seq<JsonModel>,
    n: int,
    taken: Taken,
    images: Seq<LoadedImage>,
    reviews: Seq<LoadedReview>,
) -> Result<(Seq<JsonModel>, Taken), InputError>
    decreases n,
{
    if n <= 0 {
        Ok((Seq::empty(), taken))
    } else {
        match message_done(messages[n - 1], taken, images, reviews) {
            Err(error) => Err(error),
            Ok((message, next)) => match messages_done(messages, n - 1, next, images, reviews) {
                Err(error) => Err(error),
                Ok((earlier, after)) => Ok((earlier.push(message), after)),
            },
        }
    }
}

fn do_message(
    message: Json,
    taken: Taken,
    images: &Vec<LoadedImage>,
    reviews: &Vec<LoadedReview>,
) -> (r: Result<(Json, Taken), InputError>)
    requires
        taken_bounded(taken),
    ensures
        match (r, message_done(message@, taken, images@, reviews@)) {
            (Ok((value, next)), Ok((expected, after))) => value@ == expected && next == after
                && taken_bounded(next),
            (Err(error), Err(expected)) => error == expected,
            _ => false,
        },
{
    let user = match message.text("role") {
        Some(role) => same_text(role, "user"),
        None => false,
    };
    if !user {
        return Ok((message, taken));
    }
    let content = match message.get("content") {
        None => None,
        Some(content) => Some(content.copy()),
    };
    let mut members = match message {
        Json::Object(members) => members,
        other => return Ok((other, taken)),
    };
    match content {
        None => {
            set_member_value(&mut members, "content", Json::Null);
            Ok((Json::Object(members), taken))
        },
        Some(Json::List(parts)) => {
            let (done, next) = match do_parts(parts, taken, images, reviews) {
                Err(error) => return Err(error),
                Ok(done) => done,
            };
            set_member_value(&mut members, "content", Json::List(done));
            Ok((Json::Object(members), next))
        },
        Some(_) => Ok((Json::Object(members), taken)),
    }
}

/// Puts the images and the notes that messages name into a request: the latest ones, within
/// bounds.
pub fn materialize(
    messages: Vec<Json>,
    images: &Vec<LoadedImage>,
    reviews: &Vec<LoadedReview>,
) -> (r: Result<Vec<Json>, InputError>)
    ensures
        match (
            r,
            messages_done(
                models(messages),
                models(messages).len() as int,
                (Taken { media: 0, feedback: 0 }),
                images@,
                reviews@,
            ),
        ) {
            (Ok(values), Ok((expected, _))) => models(values) == expected,
            (Err(error), Err(expected)) => error == expected,
            _ => false,
        },
{
    let start = Taken { media: 0, feedback: 0 };
    let ghost given = messages@;
    let ghost all = models(messages);
    let ghost whole = messages_done(all, all.len() as int, start, images@, reviews@);
    proof {
        lemma_items(messages, messages@.len());
    }
    let mut left = messages;
    let mut later: Vec<Json> = Vec::new();
    let mut state = start;
    proof {
        lemma_items(later, 0);
        assert(models(later) =~= Seq::<JsonModel>::empty());
        lemma_nothing_later(whole);
    }
    while left.len() > 0
        invariant
            taken_bounded(state),
            start == (Taken { media: 0, feedback: 0 }),
            all == models(messages),
            all.len() == given.len(),
            forall|i: int| 0 <= i < all.len() ==> all[i] == #[trigger] given[i]@,
            left@.len() <= given.len(),
            left@ == given.subrange(0, left@.len() as int),
            whole == messages_done(all, all.len() as int, start, images@, reviews@),
            whole == joined(
                messages_done(all, left@.len() as int, state, images@, reviews@),
                models(later),
            ),
        decreases left.len(),
    {
        let ghost n = left@.len() as int;
        match left.pop() {
            Some(message) => {
                assert(message == given[n - 1]);
                assert(message@ == all[n - 1]);
                let (value, next) = match do_message(message, state, images, reviews) {
                    Err(error) => return Err(error),
                    Ok(done) => done,
                };
                proof {
                    lemma_joined(
                        messages_done(all, n - 1, next, images@, reviews@),
                        value@,
                        models(later),
                    );
                }
                add_item(&mut later, value);
                state = next;
                assert(left@ =~= given.subrange(0, n - 1));
            },
            None => {},
        }
    }
    let values = reversed(later);
    proof {
        assert(Seq::<JsonModel>::empty() + models(values) =~= models(values));
    }
    Ok(values)
}

/// The identity that a text spells, if it spells one.
pub open spec fn spelled(text: Seq<char>) -> Option<Digest> {
    if exists|digest: Digest| #[trigger] digest.text() == text {
        Some(choose|digest: Digest| #[trigger] digest.text() == text)
    } else {
        None
    }
}

fn read_digest(text: &str) -> (r: Option<Digest>)
    ensures
        r == spelled(text@),
{
    let read = Digest::parse(text);
    proof {
        if let Some(digest) = read {
            assert(digest.text() == text@);
            let chosen = choose|digest: Digest| #[trigger] digest.text() == text@;
            law_texts_tell_digests_apart(digest, chosen);
        }
    }
    read
}

/// The identities of the media that the parts of a message from one on name.
pub open spec fn references_in(parts: Seq<JsonModel>, i: int) -> Option<Seq<Digest>>
    decreases parts.len() - i,
{
    if i < 0 || i >= parts.len() {
        Some(Seq::empty())
    } else {
        let kind = parts[i].text_member("type"@);
        if kind == Some("tact_image"@) || kind == Some("tact_review"@) {
            match (parts[i].text_member("digest"@), references_in(parts, i + 1)) {
                (Some(text), Some(rest)) => match spelled(text) {
                    Some(digest) => Some(Seq::empty().push(digest) + rest),
                    None => None,
                },
                _ => None,
            }
        } else {
            references_in(parts, i + 1)
        }
    }
}

/// The identities of the media that messages from one on name.
pub open spec fn references_from(messages: Seq<JsonModel>, i: int) -> Option<Seq<Digest>>
    decreases messages.len() - i,
{
    if i < 0 || i >= messages.len() {
        Some(Seq::empty())
    } else {
        let here = match messages[i].list_member("content"@) {
            Some(parts) => references_in(parts, 0),
            None => Some(Seq::empty()),
        };
        match (here, references_from(messages, i + 1)) {
            (Some(here), Some(rest)) => Some(here + rest),
            _ => None,
        }
    }
}

/// What came before and what comes, unless that fails.
pub open spec fn found_behind(before: Seq<Digest>, rest: Option<Seq<Digest>>) -> Option<
    Seq<Digest>,
> {
    match rest {
        None => None,
        Some(rest) => Some(before + rest),
    }
}

fn list_references(parts: &Vec<Json>) -> (r: Option<Vec<Digest>>)
    ensures
        match (r, references_in(models(*parts), 0)) {
            (Some(list), Some(expected)) => list@ == expected,
            (None, None) => true,
            _ => false,
        },
{
    let ghost all = models(*parts);
    let ghost whole = references_in(all, 0);
    proof {
        lemma_items(*parts, parts@.len());
    }
    let mut list: Vec<Digest> = Vec::new();
    let mut i: usize = 0;
    proof {
        if whole is Some {
            assert(list@ + whole->0 =~= whole->0);
        }
    }
    while i < parts.len()
        invariant
            i <= parts.len(),
            all == models(*parts),
            all.len() == parts@.len(),
            forall|j: int| 0 <= j < all.len() ==> #[trigger] all[j] == parts@[j]@,
            whole == references_in(all, 0),
            whole == found_behind(list@, references_in(all, i as int)),
        decreases parts.len() - i,
    {
        assert(all[i as int] == parts@[i as int]@);
        if is_kind(&parts[i], "tact_image") || is_kind(&parts[i], "tact_review") {
            let digest = match parts[i].text("digest") {
                None => return None,
                Some(text) => match read_digest(text) {
                    None => return None,
                    Some(digest) => digest,
                },
            };
            let ghost before = list@;
            let ghost one = digest;
            let ghost rest = references_in(all, i + 1);
            list.push(digest);
            proof {
                if rest is Some {
                    assert(before + (Seq::empty().push(one) + rest->0) =~= before.push(one)
                        + rest->0);
                }
            }
        }
        i += 1;
    }
    proof {
        assert(list@ + Seq::<Digest>::empty() =~= list@);
    }
    Some(list)
}

/// The identities of the media that recorded messages name, given what they read as.
pub fn media_references_with(parsed: &Option<Json>) -> (r: Result<Vec<Digest>, InputError>)
    ensures
        match r {
            Ok(list) => *parsed is Some && parsed->0@ is List && references_from(
                parsed->0@->List_0,
                0,
            ) == Some(list@),
            Err(error) => error == InputError::Json && !(*parsed is Some && parsed->0@ is List
                && references_from(parsed->0@->List_0, 0) is Some),
        },
{
    let messages = match parsed {
        Some(Json::List(messages)) => messages,
        _ => return Err(InputError::Json),
    };
    let ghost all = models(*messages);
    let ghost whole = references_from(all, 0);
    proof {
        lemma_items(*messages, messages@.len());
    }
    let mut list: Vec<Digest> = Vec::new();
    let mut i: usize = 0;
    proof {
        if whole is Some {
            assert(list@ + whole->0 =~= whole->0);
        }
    }
    while i < messages.len()
        invariant
            i <= messages.len(),
            parsed is Some && parsed->0@ == JsonModel::List(all),
            all == models(*messages),
            all.len() == messages@.len(),
            forall|j: int| 0 <= j < all.len() ==> #[trigger] all[j] == messages@[j]@,
            whole == references_from(all, 0),
            whole == found_behind(list@, references_from(all, i as int)),
        decreases messages.len() - i,
    {
        assert(all[i as int] == messages@[i as int]@);
        let ghost before = list@;
        let ghost rest = references_from(all, i + 1);
        match messages[i].list("content") {
            Some(parts) => {
                let mut found = match list_references(parts) {
                    None => return Err(InputError::Json),
                    Some(found) => found,
                };
                let ghost here = found@;
                list.append(&mut found);
                proof {
                    assert(list@ =~= before + here);
                    if rest is Some {
                        assert(before + (here + rest->0) =~= (before + here) + rest->0);
                    }
                }
            },
            None => {
                proof {
                    if rest is Some {
                        assert(before + (Seq::<Digest>::empty() + rest->0) =~= before
                            + rest->0);
                    }
                }
            },
        }
        i += 1;
    }
    proof {
        assert(list@ + Seq::<Digest>::empty() =~= list@);
    }
    Ok(list)
}

/// The identities of the media that recorded messages name.
pub fn media_references(bytes: &[u8]) -> (r: Result<Vec<Digest>, InputError>)
    ensures
        ({
            let parsed = parsed_json(bytes@);
            match r {
                Ok(list) => parsed is Some && parsed->0 is List && references_from(
                    parsed->0->List_0,
                    0,
                ) == Some(list@),
                Err(error) => error == InputError::Json && !(parsed is Some && parsed->0 is List
                    && references_from(parsed->0->List_0, 0) is Some),
            }
        }),
{
    let parsed = Json::parse(bytes);
    media_references_with(&parsed)
}

} // verus!
