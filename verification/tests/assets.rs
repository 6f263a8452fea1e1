use book_tools::assets::{plan_assets, AssetStep, WalkedFile};

fn file(rel: &str, ext: Option<&str>) -> WalkedFile {
    WalkedFile { rel: rel.to_string(), extension: ext.map(|e| e.to_string()), is_dir: false }
}

fn step_text(s: &AssetStep) -> String {
    match s {
        AssetStep::Read { file, href } => format!("read {file} {href}"),
        AssetStep::RenderPng { file, svg_href, png_href } => format!("png {file} {svg_href} {png_href}"),
    }
}

#[test]
fn assets_are_planned_in_walk_order_and_listed_by_name() {
    let files = vec![
        WalkedFile { rel: "img".to_string(), extension: None, is_dir: true },
        file("index.html", Some("html")),
        file("img/b.svg", Some("svg")),
        file("mimetype", None),
        file("css/site.css", Some("css")),
        file("img/b.png", Some("png")),
        file("LICENSE", None),
        file("img/A.SVG", Some("SVG")),
        file("x.HTML", Some("HTML")),
    ];
    let plan = plan_assets(&files);
    let steps: Vec<String> = plan.steps.iter().map(step_text).collect();
    assert_eq!(
        steps,
        vec![
            "read 2 book/img/b.svg",
            "png 2 book/img/b.svg book/img/b.png",
            "read 4 book/css/site.css",
            "read 7 book/img/A.SVG",
            "png 7 book/img/A.SVG book/img/A.SVG.png",
        ]
    );
    let items: Vec<(String, String, String)> = plan
        .items
        .iter()
        .map(|i| (i.id.clone(), i.href.clone(), i.media_type.clone()))
        .collect();
    let expect = |id: &str, href: &str, mt: &str| (id.to_string(), href.to_string(), mt.to_string());
    assert_eq!(
        items,
        vec![
            expect("asset3", "book/css/site.css", "text/css"),
            expect("asset4", "book/img/A.SVG", "image/svg+xml"),
            expect("asset5", "book/img/A.SVG.png", "image/png"),
            expect("asset2", "book/img/b.png", "image/png"),
            expect("asset1", "book/img/b.svg", "image/svg+xml"),
        ]
    );
    assert!(plan.items.iter().all(|i| i.properties.is_none()));
}

#[test]
fn rendered_png_name_is_not_taken_twice() {
    let files = vec![file("a.png", Some("png")), file("a.svg", Some("svg")), file("a.svg", Some("svg"))];
    let plan = plan_assets(&files);
    let steps: Vec<String> = plan.steps.iter().map(step_text).collect();
    assert_eq!(steps, vec!["read 0 book/a.png", "read 1 book/a.svg"]);
    let hrefs: Vec<&str> = plan.items.iter().map(|i| i.href.as_str()).collect();
    assert_eq!(hrefs, vec!["book/a.png", "book/a.svg"]);
}

#[test]
fn empty_walk_gives_empty_plan() {
    let plan = plan_assets(&Vec::new());
    assert!(plan.items.is_empty());
    assert!(plan.steps.is_empty());
}
