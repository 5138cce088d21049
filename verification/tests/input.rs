use harness::digest::Digest;
use harness::feedback::{read, Disposition, ReviewFeedback, SessionId};
use harness::input::{
    check_parts, load, materialize, media_references, Content, InputBuilder, InputError, LoadedImage,
    LoadedReview,
};
use harness::json::Json;
use harness::manual::{ShellSpec, TaskId};
use harness::uuid::Uuid;

// The signature of a PNG file, then nothing.
const PNG: [u8; 8] = [137, 80, 78, 71, 13, 10, 26, 10];
const PNG_TEXT: &str = "iVBORw0KGgo=";

#[test]
fn inputs_are_built_from_their_parts() {
    let mut builder = InputBuilder::new();
    builder.text("hello ").unwrap();
    builder.text("world").unwrap();
    let bytes = builder
        .image(&format!("data:image/png;base64,{PNG_TEXT}"), "auto")
        .unwrap();
    assert_eq!(bytes, PNG.to_vec());
    builder.review(Digest::of(b"note"), 10).unwrap();
    let prepared = builder.finish();
    assert_eq!(prepared.text, "hello world");
    assert_eq!(prepared.messages.len(), 1);
    let content = prepared.messages[0].list("content").unwrap();
    assert_eq!(content.len(), 4);
    assert_eq!(content[2].text("digest"), Some(Digest::of(&PNG).to_string().as_str()));
    assert_eq!(content[3].text("type"), Some("tact_review"));
    let list = Json::List(prepared.messages);
    assert_eq!(prepared.artifact, Digest::of(list.to_text().as_bytes()));
    let again = load(list.to_text().as_bytes(), prepared.artifact).unwrap();
    assert_eq!(again.text, "hello world");
    assert_eq!(
        media_references(list.to_text().as_bytes()).unwrap(),
        vec![Digest::of(&PNG), Digest::of(b"note")]
    );
}

#[test]
fn parts_are_taken_as_they_are() {
    let note = Digest::of(b"note");
    let url = format!("data:image/png;base64,{PNG_TEXT}");
    let mut builder = InputBuilder::new();
    let text = Content::Text { text: "hi".to_string() };
    assert_eq!(builder.take(&text, 7), Ok(None));
    let image = Content::Image { image_url: url.clone(), detail: "low".to_string() };
    assert_eq!(builder.take(&image, 0), Ok(Some(PNG.to_vec())));
    assert_eq!(builder.take(&Content::Review { digest: note }, 10), Ok(None));
    let mut other = InputBuilder::new();
    other.text("hi").unwrap();
    other.image(&url, "low").unwrap();
    other.review(note, 10).unwrap();
    assert_eq!(builder.finish().artifact, other.finish().artifact);
    let mut builder = InputBuilder::new();
    assert_eq!(
        builder.take(&Content::Review { digest: note }, usize::MAX),
        Err(InputError::Invalid("input text and review attachments exceed 128 KiB"))
    );
    let image = Content::Image { image_url: url, detail: "huge".to_string() };
    assert_eq!(
        builder.take(&image, 0),
        Err(InputError::Invalid("unsupported image detail"))
    );
}

#[test]
fn media_references_are_read_as_digests() {
    let known = Digest::of(b"note").to_string();
    let message = |digest: &str| {
        format!(r#"[{{"role":"user","content":[{{"type":"tact_review","digest":"{digest}"}}]}}]"#)
    };
    assert_eq!(
        media_references(message(&known).as_bytes()).unwrap(),
        vec![Digest::of(b"note")]
    );
    for wrong in ["", "note", &known[1..], &known.to_uppercase()] {
        assert_eq!(media_references(message(wrong).as_bytes()), Err(InputError::Json));
    }
    assert_eq!(media_references(b"{}"), Err(InputError::Json));
    assert_eq!(media_references(b"[{\"content\":3}]").unwrap(), Vec::<Digest>::new());
}

#[test]
fn parts_are_bounded_and_checked() {
    assert!(check_parts(0).is_err());
    assert!(check_parts(1).is_ok());
    let mut builder = InputBuilder::new();
    assert_eq!(
        builder.text(&"x".repeat(131073)),
        Err(InputError::Invalid("input text exceeds 128 KiB"))
    );
    assert_eq!(
        builder.image(&format!("data:image/png;base64,{PNG_TEXT}"), "big"),
        Err(InputError::Invalid("unsupported image detail"))
    );
    assert_eq!(
        builder.image("data:image/png;base64,****", "low"),
        Err(InputError::Invalid("invalid image encoding"))
    );
    assert_eq!(
        builder.image(&format!("data:image/jpeg;base64,{PNG_TEXT}"), "low"),
        Err(InputError::Invalid("unsupported image media type or signature"))
    );
    assert_eq!(load(b"{", Digest::of(b"")).err(), Some(InputError::Json));
    assert_eq!(
        load(b"[]", Digest::of(b"")).err(),
        Some(InputError::Integrity("input artifact must contain one user message"))
    );
}

#[test]
fn images_and_notes_are_put_into_requests() {
    let mut builder = InputBuilder::new();
    builder.text("look").unwrap();
    builder.image(&format!("data:image/png;base64,{PNG_TEXT}"), "high").unwrap();
    builder.review(Digest::of(b"note"), 2).unwrap();
    let prepared = builder.finish();
    let images = vec![LoadedImage { digest: Digest::of(&PNG), bytes: PNG.to_vec() }];
    let reviews = vec![LoadedReview {
        digest: Digest::of(b"note"),
        source_identity: Digest::of(b"source"),
        disposition: Disposition::Approved,
        body: "ok".to_string(),
    }];
    let messages = materialize(prepared.messages, &images, &reviews).unwrap();
    let content = messages[0].list("content").unwrap();
    assert_eq!(
        content[1].text("image_url"),
        Some(format!("data:image/png;base64,{PNG_TEXT}").as_str())
    );
    assert_eq!(content[1].text("detail"), Some("high"));
    assert_eq!(content[2].text("type"), Some("input_text"));
    assert!(content[2].text("text").unwrap().contains("ok"));
}

#[test]
fn notes_belong_to_their_source() {
    let note = || ReviewFeedback {
        version: 1,
        session: SessionId(Uuid::from_u128(1)),
        manifest: Digest::of(b"m"),
        source_identity: Digest::of(b"s"),
        disposition: Disposition::Comment,
        body: "text".to_string(),
    };
    assert_eq!(read(10, Some(note()), Some(Digest::of(b"s"))).unwrap().body, "text");
    assert_eq!(
        read(10, Some(note()), Some(Digest::of(b"t"))).err(),
        Some(InputError::Integrity("review feedback source identity mismatch"))
    );
    assert_eq!(
        read(10, Some(note()), None).err(),
        Some(InputError::Integrity("review feedback has no valid source manifest"))
    );
    assert_eq!(read(10, None, None).err(), Some(InputError::Json));
    assert_eq!(
        read(69633, Some(note()), None).err(),
        Some(InputError::Invalid("review feedback exceeds its bound"))
    );
}

#[test]
fn shell_commands_are_bounded() {
    let spec = || ShellSpec {
        command: "ls".to_string(),
        expected_task: None,
        scope_revision: None,
        timeout_ms: 1000,
        output_bytes: 1024,
    };
    assert_eq!(spec().validate(), Ok(()));
    let mut scoped = spec();
    scoped.scope_revision = Some(1);
    assert_eq!(
        scoped.validate(),
        Err(InputError::Invalid("shell scope requires its task identity"))
    );
    scoped.expected_task = Some(TaskId(Uuid::from_u128(3)));
    assert_eq!(scoped.validate(), Ok(()));
    let mut blank = spec();
    blank.command = " \n".to_string();
    assert_eq!(
        blank.validate(),
        Err(InputError::Invalid("shell command or execution bounds are invalid"))
    );
    let mut slow = spec();
    slow.timeout_ms = 300001;
    assert!(slow.validate().is_err());
}
