use home_inventory::types::Device;
use home_inventory::views::{devices_page, esc, row};

fn d(source: &str, id: &str, name: &str) -> Device {
    Device {
        source: source.into(),
        source_id: id.into(),
        name: name.into(),
        manufacturer: None,
        model: None,
        kind: None,
        room: None,
    }
}

#[test]
fn html_contains_table_and_count() {
    let html = devices_page(&[d("ha", "x.y", "Foo")]);
    assert!(html.contains("<table>"));
    assert!(html.contains("Foo"));
    assert!(html.contains("1 Geraete"));
}

#[test]
fn html_escapes_dangerous_chars() {
    let html = devices_page(&[d("ha", "x", "<script>alert(1)</script>")]);
    assert!(!html.contains("<script>"));
    assert!(html.contains("&lt;script&gt;"));
}

#[test]
fn esc_covers_all_five_characters() {
    assert_eq!(esc("&<>\"'"), "&amp;&lt;&gt;&quot;&#39;");
    assert_eq!(esc("plain"), "plain");
}

#[test]
fn row_renders_missing_fields_empty() {
    let mut dev = d("ccu", "A1", "Bad");
    dev.kind = Some("thermostat".into());
    let r = row(&dev);
    assert!(r.contains("<td class=\"src\">ccu</td>"));
    assert!(r.contains("<td>thermostat</td>"));
    assert!(r.contains("<td></td>"));
}

#[test]
fn page_counts_every_device() {
    let page = devices_page(&[d("a", "1", "x"), d("b", "2", "y"), d("c", "3", "z")]);
    assert!(page.contains("3 Geraete"));
    assert_eq!(page.matches("<tr>").count(), 4);
}
