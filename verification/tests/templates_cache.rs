use jude_web::templates::{page_from_bytes, template, template_path, Page, TemplateCache};
use mustache::{MapBuilder, Template};

fn s(x: &str) -> String {
    x.to_string()
}

fn renderer(data: &mustache::Data) -> impl FnOnce(&Template) -> Vec<u8> + '_ {
    move |t: &Template| {
        let mut v = Vec::new();
        let _ = t.render_data(&mut v, data);
        v
    }
}

#[test]
fn templates_path_of_page() {
    assert_eq!(template_path(&s("index.html")), "templates/index.html.mst");
    assert_eq!(template_path(&s("")), "templates/.mst");
}

#[test]
fn templates_cache_then_render() {
    let mut cache = TemplateCache::new();
    let data = MapBuilder::new().insert_str("title", "jude.bio").build();
    match template(&cache, &s("page"), |_: &Template| -> Vec<u8> { panic!("nothing to render") }) {
        Page::NotLoaded(p) => assert_eq!(p, "templates/page.mst"),
        _ => panic!("nothing is cached yet"),
    }
    assert!(!cache.has_template(&s("page")));
    let t = mustache::compile_str("<h1>{{title}}</h1>").unwrap();
    cache.load_template(&s("page"), t);
    assert!(cache.has_template(&s("page")));
    match template(&cache, &s("page"), renderer(&data)) {
        Page::Rendered(html) => assert_eq!(html, "<h1>jude.bio</h1>"),
        _ => panic!("the template is cached"),
    }
    let other = MapBuilder::new().insert_str("title", "again").build();
    match template(&cache, &s("page"), renderer(&other)) {
        Page::Rendered(html) => assert_eq!(html, "<h1>again</h1>"),
        _ => panic!("the template is still cached"),
    }
}

#[test]
fn templates_page_from_bytes() {
    assert!(matches!(page_from_bytes(b"ok".to_vec()), Page::Rendered(ref s) if s == "ok"));
    assert!(matches!(page_from_bytes(vec![0xff, 0xfe]), Page::NotUtf8));
    assert!(matches!(page_from_bytes(Vec::new()), Page::Rendered(ref s) if s.is_empty()));
}
