use pmcp::error::Error;
use pmcp::server::simple_prompt::{check_arguments, PromptArgument, SimplePrompt, SyncPrompt};
use pmcp::server::simple_resources::{Content, DynamicResourceHandler, ResourceCollection, StaticResource};

#[test]
fn static_resource_names() {
    let r = StaticResource::new_text("file:///docs/readme.md".to_string(), "hello".to_string());
    let info = r.info();
    assert_eq!(info.name, "readme.md");
    assert_eq!(info.mime_type, Some("text/plain".to_string()));
    assert_eq!(r.uri(), "file:///docs/readme.md");
    let plain = StaticResource::new_text("plain".to_string(), String::new());
    assert_eq!(plain.info().name, "plain");
    let dir = StaticResource::new_text("a/b/".to_string(), String::new());
    assert_eq!(dir.info().name, "");
}

#[test]
fn image_resources_are_base64() {
    let r = StaticResource::new_image("img/logo.png".to_string(), b"Man".to_vec(), "image/png".to_string());
    match r.content() {
        Content::Image { data, mime_type } => {
            assert_eq!(data, "TWFu");
            assert_eq!(mime_type, "image/png");
        },
        _ => panic!("expected an image"),
    }
    let r = r.with_name("Logo".to_string()).with_description("d".to_string()).with_mime_type("x/y".to_string());
    let info = r.info();
    assert_eq!(info.name, "Logo");
    assert_eq!(info.description, Some("d".to_string()));
    assert_eq!(info.mime_type, Some("x/y".to_string()));
}

#[test]
fn collection_replaces_by_uri() {
    let c = ResourceCollection::new()
        .add_resource(StaticResource::new_text("u1".to_string(), "one".to_string()))
        .add_resources(vec![
            StaticResource::new_text("u2".to_string(), "two".to_string()),
            StaticResource::new_text("u1".to_string(), "uno".to_string()),
        ]);
    assert_eq!(c.list().len(), 2);
    match c.read("u1").unwrap() {
        Content::Text { text } => assert_eq!(text, "uno"),
        _ => panic!("expected text"),
    }
    assert!(c.get("u2").is_some());
    assert!(c.get("u3").is_none());
    match c.read("u3") {
        Err(Error::Protocol { code, message, .. }) => {
            assert_eq!(code.as_i32(), -32602);
            assert_eq!(message, "Resource not found: u3");
        },
        _ => panic!("expected not found"),
    }
}

#[test]
fn dynamic_handler_keeps_callbacks() {
    let h = DynamicResourceHandler::new(|x: u32| x + 1, |x: u32| x * 2);
    assert_eq!((h.read_handler())(1), 2);
    assert_eq!((h.list_handler())(3), 6);
}

#[test]
fn prompt_arguments() {
    let p = SimplePrompt::new("review".to_string(), ())
        .with_description("Review code".to_string())
        .with_argument("language".to_string(), "Language".to_string(), true)
        .with_argument("style".to_string(), "Style".to_string(), false);
    assert!(p.check_arguments(&["language".to_string()]).is_ok());
    match p.check_arguments(&["style".to_string()]) {
        Err(Error::Validation(m)) => assert_eq!(m, "Required argument 'language' is missing"),
        _ => panic!("expected a missing argument"),
    }
    let info = p.metadata().unwrap();
    assert_eq!(info.name, "review");
    assert_eq!(info.description, Some("Review code".to_string()));
    assert_eq!(info.arguments.unwrap().len(), 2);

    let s = SyncPrompt::new("plain".to_string(), 7u8);
    assert!(s.metadata().unwrap().arguments.is_none());
    assert_eq!(*s.handler(), 7);
    assert!(s.check_arguments(&[]).is_ok());
}

#[test]
fn first_missing_argument_is_reported() {
    let args = vec![
        PromptArgument { name: "a".to_string(), description: None, required: false },
        PromptArgument { name: "b".to_string(), description: None, required: true },
        PromptArgument { name: "c".to_string(), description: None, required: true },
    ];
    match check_arguments(&args, &[]) {
        Err(Error::Validation(m)) => assert_eq!(m, "Required argument 'b' is missing"),
        _ => panic!("expected a missing argument"),
    }
}
