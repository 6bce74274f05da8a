use std::collections::HashMap;
use std::collections::HashSet;

use blog::load::load_post;
use blog::load::load_posts;
use blog::load::LoadErrorKind;
use blog::plan::render_plan;
use blog::plan::PlanStep;
use blog::post::Post;

fn post_file(title: &str, author: &str, body: &str) -> String {
    format!("---\ntitle: {}\nauthor: {}\n---\n\n{}", title, author, body)
}

#[test]
fn load_post_fills_every_field() {
    let p = load_post("2021-05-01-first.md", &post_file("T", "A", "hello")).unwrap();
    assert_eq!(p.filename, "first");
    assert_eq!(p.title, "T");
    assert_eq!(p.author, "A");
    assert_eq!(p.year, "2021");
    assert_eq!(p.month, "05");
    assert_eq!(p.day, "01");
    assert_eq!(p.contents, "<p>hello</p>\n");
    assert_eq!(p.url, "2021/05/01/first.html");
}

#[test]
fn contents_hold_converted_html_not_markdown() {
    let p = load_post("2021-05-01-first.md", &post_file("T", "A", "*em* text")).unwrap();
    assert_eq!(p.contents, "<p><em>em</em> text</p>\n");
}

#[test]
fn url_keeps_date_text_verbatim() {
    let p = load_post("2021-5-1-a.md", &post_file("T", "A", "x")).unwrap();
    assert_eq!(p.url, "2021/5/1/a.html");
    let q = load_post("0099-01-02-b.md", &post_file("T", "A", "x")).unwrap();
    assert_eq!(q.url, "0099/01/02/b.html");
}

#[test]
fn load_post_reports_bad_filename() {
    let e = load_post("nodate.md", &post_file("T", "A", "x")).unwrap_err();
    assert_eq!(e.filename, "nodate.md");
    assert!(matches!(e.kind, LoadErrorKind::BadFilename(_)));
}

#[test]
fn load_post_reports_bad_header() {
    let e = load_post("2021-05-01-first.md", "---\ntitle: T\n---\n\nx").unwrap_err();
    assert_eq!(e.filename, "2021-05-01-first.md");
    assert!(matches!(e.kind, LoadErrorKind::BadHeader(_)));
}

#[test]
fn load_posts_orders_most_recent_first() {
    let entries = vec![
        ("2021-05-01-first.md".to_string(), post_file("First", "A", "hello")),
        ("2021-06-10-second.md".to_string(), post_file("Second", "A", "hello")),
    ];
    let posts = load_posts(&entries).unwrap();
    assert_eq!(posts.len(), 2);
    assert_eq!(posts[0].title, "Second");
    assert_eq!(posts[1].title, "First");
}

#[test]
fn load_posts_ignores_listing_order() {
    let a = ("2019-01-01-old.md".to_string(), post_file("Old", "A", "x"));
    let b = ("2020-12-31-new.md".to_string(), post_file("New", "A", "x"));
    let one = load_posts(&vec![a.clone(), b.clone()]).unwrap();
    let two = load_posts(&vec![b, a]).unwrap();
    assert_eq!(one[0].title, "New");
    assert_eq!(two[0].title, "New");
    assert_eq!(one[1].title, "Old");
    assert_eq!(two[1].title, "Old");
}

#[test]
fn same_date_posts_tie_break_on_slug() {
    let entries = vec![
        ("2021-05-01-alpha.md".to_string(), post_file("Alpha", "A", "x")),
        ("2021-05-01-beta.md".to_string(), post_file("Beta", "A", "x")),
    ];
    let posts = load_posts(&entries).unwrap();
    assert_eq!(posts[0].title, "Beta");
    assert_eq!(posts[1].title, "Alpha");
}

#[test]
fn load_posts_reports_first_bad_entry() {
    let entries = vec![
        ("2021-05-01-good.md".to_string(), post_file("G", "A", "x")),
        ("bad".to_string(), post_file("B", "A", "x")),
        ("2021-05-02-alsobad.md".to_string(), "no header".to_string()),
    ];
    let e = load_posts(&entries).unwrap_err();
    assert_eq!(e.filename, "bad");
}

#[test]
fn plan_writes_index_then_each_post() {
    let entries = vec![
        ("2021-05-01-first.md".to_string(), post_file("First", "A", "hello")),
        ("2021-06-10-second.md".to_string(), post_file("Second", "A", "hello")),
    ];
    let posts = load_posts(&entries).unwrap();
    let plan = render_plan(&posts);
    assert_eq!(plan.len(), 5);
    assert_eq!(plan[0], PlanStep::WriteIndex("index.html".to_string()));
    assert_eq!(plan[1], PlanStep::EnsureDir("2021/06/10".to_string()));
    assert_eq!(plan[2], PlanStep::WritePost("2021/06/10/second.html".to_string(), 0));
    assert_eq!(plan[3], PlanStep::EnsureDir("2021/05/01".to_string()));
    assert_eq!(plan[4], PlanStep::WritePost("2021/05/01/first.html".to_string(), 1));
}

#[test]
fn shared_dates_repeat_the_same_directory_step() {
    let entries = vec![
        ("2021-05-01-alpha.md".to_string(), post_file("Alpha", "A", "x")),
        ("2021-05-01-beta.md".to_string(), post_file("Beta", "A", "x")),
    ];
    let posts = load_posts(&entries).unwrap();
    let plan = render_plan(&posts);
    assert_eq!(plan[1], plan[3]);
    assert_eq!(plan[1], PlanStep::EnsureDir("2021/05/01".to_string()));
    // Executing both steps against one set of directories must not fail: the
    // second creation of the same path is a no-op.
    let mut dirs: HashSet<String> = HashSet::new();
    for step in &plan {
        if let PlanStep::EnsureDir(d) = step {
            dirs.insert(d.clone());
        }
    }
    assert_eq!(dirs.len(), 1);
}

fn post_value(p: &Post) -> serde_json::Value {
    let mut m = serde_json::Map::new();
    m.insert("filename".to_string(), serde_json::Value::String(p.filename.clone()));
    m.insert("title".to_string(), serde_json::Value::String(p.title.clone()));
    m.insert("author".to_string(), serde_json::Value::String(p.author.clone()));
    m.insert("year".to_string(), serde_json::Value::String(p.year.clone()));
    m.insert("month".to_string(), serde_json::Value::String(p.month.clone()));
    m.insert("day".to_string(), serde_json::Value::String(p.day.clone()));
    m.insert("contents".to_string(), serde_json::Value::String(p.contents.clone()));
    m.insert("url".to_string(), serde_json::Value::String(p.url.clone()));
    serde_json::Value::Object(m)
}

fn index_value(title: &str, posts: &[Post]) -> serde_json::Value {
    let mut m = serde_json::Map::new();
    m.insert("title".to_string(), serde_json::Value::String(title.to_string()));
    let list: Vec<serde_json::Value> = posts.iter().map(post_value).collect();
    m.insert("posts".to_string(), serde_json::Value::Array(list));
    serde_json::Value::Object(m)
}

fn page_value(title: &str, post: &Post) -> serde_json::Value {
    let mut m = serde_json::Map::new();
    m.insert("title".to_string(), serde_json::Value::String(title.to_string()));
    m.insert("post".to_string(), post_value(post));
    serde_json::Value::Object(m)
}

/// Run the whole pipeline against an in-memory tree, with the real template
/// engine in strict mode.
fn render_site(entries: &Vec<(String, String)>) -> HashMap<String, String> {
    let mut hb = handlebars::Handlebars::new();
    hb.set_strict_mode(true);
    hb.register_template_string("index", "<h1>{{title}}</h1>{{#each posts}}[{{this.title}}]{{/each}}")
        .unwrap();
    hb.register_template_string("post", "<h2>{{post.title}}</h2>{{{post.contents}}}").unwrap();
    let posts = load_posts(entries).unwrap();
    let plan = render_plan(&posts);
    let mut files: HashMap<String, String> = HashMap::new();
    let mut dirs: HashSet<String> = HashSet::new();
    for step in &plan {
        match step {
            PlanStep::EnsureDir(d) => {
                dirs.insert(d.clone());
            },
            PlanStep::WriteIndex(path) => {
                let data = index_value("The Rust Programming Language Blog", &posts);
                files.insert(path.clone(), hb.render("index", &data).unwrap());
            },
            PlanStep::WritePost(path, i) => {
                let data = page_value("The Rust Programming Language Blog", &posts[*i]);
                files.insert(path.clone(), hb.render("post", &data).unwrap());
            },
        }
    }
    files
}

#[test]
fn end_to_end_renders_index_and_post_pages() {
    let entries = vec![
        ("2021-05-01-first.md".to_string(), post_file("First", "A", "hello")),
        ("2021-06-10-second.md".to_string(), post_file("Second", "A", "hello")),
    ];
    let files = render_site(&entries);
    let index = files.get("index.html").unwrap();
    assert!(index.contains("[First]"));
    assert!(index.contains("[Second]"));
    // Most recent first in the listing.
    assert!(index.find("[Second]").unwrap() < index.find("[First]").unwrap());
    assert!(files.contains_key("2021/05/01/first.html"));
    assert!(files.contains_key("2021/06/10/second.html"));
    assert_eq!(files.get("2021/05/01/first.html").unwrap(), "<h2>First</h2><p>hello</p>\n");
}

#[test]
fn rendering_twice_is_byte_identical() {
    let entries = vec![
        ("2021-05-01-first.md".to_string(), post_file("First", "A", "hello")),
        ("2021-06-10-second.md".to_string(), post_file("Second", "A", "hello")),
    ];
    let once = render_site(&entries);
    let twice = render_site(&entries);
    assert_eq!(once, twice);
    let posts = load_posts(&entries).unwrap();
    assert_eq!(render_plan(&posts), render_plan(&posts));
}
