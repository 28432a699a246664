use powderman::charts::{
    annotation_row, chart_key, chart_names, chart_view, footer, fresh_chart_name, new_chart, nothing_to_draw,
    resolve_spec, run_row, series_row, ChartView, HostFeeds,
};
use powderman::json::{Json, Member, Number};
use powderman::settings::set_setting;
use powderman::tree::resolve;
use powderman::viewer::target_noun;

fn num(n: u64) -> Json {
    Json::Num(Number::PosInt(n))
}

fn text(s: &str) -> Json {
    Json::Str(s.to_string())
}

fn obj(members: Vec<(&str, Json)>) -> Json {
    Json::Object(
        members
            .into_iter()
            .map(|(k, v)| Member { key: k.to_string(), value: v })
            .collect(),
    )
}

fn keys(j: &Json) -> Vec<String> {
    match j {
        Json::Object(ms) => ms.iter().map(|m| m.key.clone()).collect(),
        _ => panic!("an object"),
    }
}

fn at<'a>(j: &'a Json, pointer: &str) -> &'a Json {
    resolve(j, pointer).unwrap_or_else(|| panic!("nothing at {pointer}"))
}

fn len_at(j: &Json, pointer: &str) -> usize {
    match at(j, pointer) {
        Json::Array(items) => items.len(),
        _ => panic!("no array at {pointer}"),
    }
}

fn feed(name: &str) -> Json {
    obj(vec![("name", text(name))])
}

/// The cpu chart the workbench seeds: run windows shaded behind the line.
fn cpu_chart() -> Json {
    obj(vec![(
        "layer",
        Json::Array(vec![
            obj(vec![("data", feed("annotations")), ("mark", text("rect"))]),
            obj(vec![("data", feed("cpu")), ("mark", text("line"))]),
        ]),
    )])
}

/// The memory chart the workbench seeds.
fn memory_chart() -> Json {
    obj(vec![("data", feed("memory")), ("mark", obj(vec![("type", text("area"))]))])
}

fn settings() -> Json {
    obj(vec![("charts", obj(vec![("cpu", cpu_chart()), ("memory", memory_chart())]))])
}

fn sample(at: i64, value: u64) -> Json {
    series_row(at, Number::PosInt(value))
}

fn host() -> HostFeeds {
    HostFeeds {
        cpu: vec![sample(1, 12), sample(2, 40)],
        memory: vec![sample(1, 25), sample(2, 50)],
        runs: vec![run_row("sweep", "done", 9)],
        fleet: vec![],
        annotations: vec![],
    }
}

fn quiet() -> HostFeeds {
    HostFeeds { cpu: vec![], memory: vec![], runs: vec![], fleet: vec![], annotations: vec![] }
}

#[test]
fn a_named_feed_becomes_the_spec_s_data() {
    let doc = settings();
    let spec = at(&doc, "/charts/memory");
    let out = resolve_spec(&host(), &doc, spec).ok().expect("resolves");
    assert_eq!(len_at(&out, "/data/values"), 2);
    assert!(resolve(&out, "/data/name").is_some(), "the feed is still named");
    assert!(matches!(at(&out, "/mark/type"), Json::Str(s) if s == "area"), "the rest of the spec survives");
}

#[test]
fn every_layer_s_feed_is_resolved() {
    let doc = settings();
    let spec = at(&doc, "/charts/cpu");
    let mut h = host();
    h.annotations = vec![annotation_row(1, 2, "done", "sweep")];
    let out = resolve_spec(&h, &doc, spec).ok().expect("resolves");
    assert_eq!(len_at(&out, "/layer"), 2);
    assert_eq!(len_at(&out, "/layer/0/data/values"), 1);
    assert_eq!(len_at(&out, "/layer/1/data/values"), 2);
}

#[test]
fn a_spec_that_cannot_be_drawn_says_why() {
    let doc = settings();
    let not_object = Json::Array(vec![num(1), num(2), num(3)]);
    let e = resolve_spec(&host(), &doc, &not_object).err().expect("refused");
    assert!(e.message.contains("JSON object"), "{}", e.message);

    let bad_feed = obj(vec![("data", feed("nope")), ("mark", text("line"))]);
    let e = resolve_spec(&host(), &doc, &bad_feed).err().expect("refused");
    assert!(e.message.contains("nope"), "{}", e.message);
    assert!(e.message.contains("cpu"), "and lists what is served: {}", e.message);
}

#[test]
fn the_picker_offers_the_charts_that_exist() {
    let names = chart_names(&settings());
    assert!(names.contains(&"cpu".to_string()), "{names:?}");
    assert_eq!(target_noun("chart"), "Chart");
}

#[test]
fn an_empty_layer_is_dropped_after_its_feed_resolves() {
    let doc = settings();
    let mut h = quiet();
    h.cpu = vec![sample(1, 10), sample(2, 20)];
    let out = resolve_spec(&h, &doc, at(&doc, "/charts/cpu")).ok().expect("resolves");
    assert_eq!(len_at(&out, "/layer"), 1, "the annotation layer went, the line stayed");
    assert_eq!(len_at(&out, "/layer/0/data/values"), 2);
    assert!(!nothing_to_draw(&out), "there is still a line to draw");
}

#[test]
fn a_chart_with_no_data_at_all_says_so() {
    let doc = settings();
    let out = resolve_spec(&quiet(), &doc, at(&doc, "/charts/cpu")).ok().expect("resolves");
    assert!(nothing_to_draw(&out), "every layer was empty, so there is nothing to draw");
    let flat = obj(vec![("data", feed("cpu")), ("mark", text("line"))]);
    let out = resolve_spec(&quiet(), &doc, &flat).ok().expect("resolves");
    assert!(nothing_to_draw(&out));
}

#[test]
fn the_feed_name_is_quoted_in_the_refusal() {
    let bad_feed = obj(vec![("data", feed("no\"pe"))]);
    let e = resolve_spec(&host(), &settings(), &bad_feed).err().expect("refused");
    assert_eq!(
        e.message,
        "no feed called \"no\\\"pe\" \u{2014} this host serves cpu, memory, runs, fleet, annotations"
    );
    assert_eq!(e.column, None);
}

#[test]
fn the_chrome_is_turned_off_where_the_author_said_nothing() {
    let spec = obj(vec![("data", feed("cpu")), ("mark", text("line"))]);
    let out = resolve_spec(&host(), &settings(), &spec).ok().expect("resolves");
    assert_eq!(keys(&out), vec!["autosize", "background", "config", "data", "height", "mark", "width"]);
    assert!(matches!(at(&out, "/background"), Json::Str(s) if s == "transparent"));
    assert!(matches!(at(&out, "/width"), Json::Str(s) if s == "container"));
    assert!(matches!(at(&out, "/height"), Json::Str(s) if s == "container"));
    assert!(matches!(at(&out, "/autosize/type"), Json::Str(s) if s == "fit"));
    assert!(matches!(at(&out, "/autosize/contains"), Json::Str(s) if s == "padding"));
    assert!(matches!(at(&out, "/config/view/stroke"), Json::Null));
}

#[test]
fn the_chrome_defers_to_the_author() {
    let spec = obj(vec![
        ("background", text("white")),
        ("config", obj(vec![("view", obj(vec![("stroke", text("red"))]))])),
        ("mark", text("line")),
        ("width", num(300)),
    ]);
    let out = resolve_spec(&host(), &settings(), &spec).ok().expect("resolves");
    assert!(matches!(at(&out, "/background"), Json::Str(s) if s == "white"));
    assert!(matches!(at(&out, "/width"), Json::Num(Number::PosInt(300))));
    assert!(matches!(at(&out, "/height"), Json::Str(s) if s == "container"));
    assert!(matches!(at(&out, "/config/view/stroke"), Json::Str(s) if s == "red"));
}

#[test]
fn a_config_that_is_not_an_object_is_replaced() {
    let spec = obj(vec![("config", num(7)), ("mark", text("line"))]);
    let out = resolve_spec(&host(), &settings(), &spec).ok().expect("resolves");
    assert_eq!(keys(at(&out, "/config")), vec!["view"]);
    assert!(matches!(at(&out, "/config/view/stroke"), Json::Null));
}

#[test]
fn a_feed_can_be_a_document_array() {
    let doc = obj(vec![("feeds", obj(vec![("temps", Json::Array(vec![num(1), num(2), num(3)]))]))]);
    let spec = obj(vec![("data", feed("temps"))]);
    let out = resolve_spec(&quiet(), &doc, &spec).ok().expect("resolves");
    assert_eq!(len_at(&out, "/data/values"), 3);
    let not_array = obj(vec![("feeds", obj(vec![("temps", num(1))]))]);
    assert!(resolve_spec(&quiet(), &not_array, &spec).is_err());
}

#[test]
fn a_feed_inside_a_data_block_is_left_alone() {
    let spec = obj(vec![("data", obj(vec![("name", text("cpu")), ("values", Json::Array(vec![feed("nope")]))]))]);
    let out = resolve_spec(&host(), &settings(), &spec).ok().expect("resolves");
    assert_eq!(len_at(&out, "/data/values"), 2);
}

#[test]
fn a_chart_view_names_its_outcome() {
    let doc = settings();
    assert!(matches!(chart_view(&host(), &doc, "nope"), ChartView::Missing));
    assert!(matches!(chart_view(&quiet(), &doc, "cpu"), ChartView::Empty));
    match chart_view(&host(), &doc, "memory") {
        ChartView::Ready(j) => assert_eq!(len_at(&j, "/data/values"), 2),
        _ => panic!("a chart to draw"),
    }
    let bad = obj(vec![("charts", obj(vec![("a/b", num(1))]))]);
    match chart_view(&host(), &bad, "a/b") {
        ChartView::Failed(e) => assert!(e.message.contains("JSON object")),
        _ => panic!("refused"),
    }
}

#[test]
fn a_target_loses_every_chart_prefix() {
    assert_eq!(chart_key("/charts/cpu"), "cpu");
    assert_eq!(chart_key("/charts//charts/cpu"), "cpu");
    assert_eq!(chart_key("cpu"), "cpu");
    assert_eq!(chart_key("/charts/"), "");
}

#[test]
fn the_footer_counts_the_longer_series() {
    assert_eq!(footer(Some("/charts/cpu"), 3, 7), "cpu \u{b7} 7 points");
    assert_eq!(footer(Some("memory"), 12, 0), "memory \u{b7} 12 points");
    assert_eq!(footer(Some("/charts/"), 3, 7), "");
    assert_eq!(footer(None, 3, 7), "");
}

#[test]
fn a_new_chart_never_overwrites_one() {
    assert_eq!(fresh_chart_name(&vec![]), "new chart");
    let taken = vec!["new chart".to_string(), "new chart 2".to_string(), "cpu".to_string()];
    assert_eq!(fresh_chart_name(&taken), "new chart 3");
    let doc = obj(vec![("charts", obj(vec![("new chart", num(1))]))]);
    let (pointer, template) = new_chart(&doc);
    assert_eq!(pointer, "/charts/new chart 2");
    assert!(matches!(at(&template, "/data/name"), Json::Str(s) if s == "cpu"));
    assert!(matches!(at(&template, "/encoding/x/title"), Json::Null));
    assert_eq!(keys(&template), vec!["$schema", "data", "encoding", "mark"]);
}

#[test]
fn rows_carry_their_fields_in_key_order() {
    assert_eq!(keys(&run_row("sweep", "done", 9)), vec!["at", "status", "workflow"]);
    assert_eq!(keys(&annotation_row(1, 2, "done", "sweep")), vec!["from", "status", "to", "workflow"]);
    assert!(matches!(at(&sample(-3, 1), "/at"), Json::Num(Number::NegInt(-3))));
}

#[test]
fn a_new_chart_lands_beside_the_others() {
    let stored = obj(vec![("charts", obj(vec![("cpu", cpu_chart()), ("new chart", num(1))]))]);
    let (pointer, template) = new_chart(&stored);
    let doc = set_setting(&stored, &pointer, template);
    assert_eq!(chart_names(&doc), vec!["cpu", "new chart", "new chart 2"]);
    assert!(matches!(at(&doc, "/charts/new chart"), Json::Num(Number::PosInt(1))));
    assert!(matches!(at(&doc, "/charts/new chart 2/mark"), Json::Str(s) if s == "line"));
}
