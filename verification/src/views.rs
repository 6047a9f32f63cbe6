//! The HTML device table.
use vstd::prelude::*;
use crate::types::{Device, opt_view};
use crate::text::{decimal, escape_html, html_escaped, push_chars, u64_decimal};

verus! {

/// Text of an optional field: the value, or nothing.
pub open spec fn opt_text(o: Option<Seq<char>>) -> Seq<char> {
    match o {
        Some(s) => s,
        None => seq![],
    }
}

/// HTML escaping of table cells (`&`, `<`, `>`, `"` and `'`).
pub open spec fn esc_text(s: Seq<char>) -> Seq<char> {
    html_escaped(s, true)
}

/// One table row: source, id, name, manufacturer, model, kind, room.
pub open spec fn row_text(d: Device) -> Seq<char> {
    "<tr><td class=\"src\">"@ + esc_text(d.source@) + "</td><td class=\"src\">"@ + esc_text(d.source_id@)
        + "</td><td>"@ + esc_text(d.name@) + "</td><td>"@ + esc_text(opt_text(opt_view(d.manufacturer)))
        + "</td><td>"@ + esc_text(opt_text(opt_view(d.model))) + "</td><td>"@ + esc_text(
        opt_text(opt_view(d.kind)),
    ) + "</td><td>"@ + esc_text(opt_text(opt_view(d.room))) + "</td></tr>\n"@
}

/// All rows, in order.
pub open spec fn rows_text(devices: Seq<Device>) -> Seq<char>
    decreases devices.len(),
{
    if devices.len() == 0 {
        seq![]
    } else {
        rows_text(devices.drop_last()) + row_text(devices.last())
    }
}

/// The whole page: styles, the device count and the table.
pub open spec fn devices_page_text(devices: Seq<Device>) -> Seq<char> {
    "<!doctype html>\n<html lang=\"de\"><head><meta charset=\"utf-8\">\n<title>haBortfeld inventory</title>\n<style>\nbody{font-family:system-ui,sans-serif;margin:2rem;color:#222;}\nh1{margin:0 0 .25rem;}\n.count{color:#888;font-size:.9rem;margin-bottom:1rem;}\ntable{border-collapse:collapse;width:100%;}\nth,td{padding:.4rem .6rem;border-bottom:1px solid #ddd;text-align:left;font-size:.9rem;}\nth{background:#f4f4f4;font-weight:600;}\ntbody tr:hover{background:#fafafa;}\n.src{font-family:monospace;color:#666;}\n</style></head><body>\n<h1>Inventar</h1>\n<div class=\"count\">"@
        + decimal(devices.len()) + " Geraete</div>\n<table>\n<thead><tr><th>Source</th><th>ID</th><th>Name</th><th>Hersteller</th><th>Modell</th><th>Art</th><th>Raum</th></tr></thead>\n<tbody>\n"@
        + rows_text(devices) + "</tbody>\n</table>\n</body></html>"@
}

/// HTML-escapes a table cell.
pub fn esc(s: &str) -> (r: String)
    ensures
        r@ == esc_text(s@),
{
    escape_html(s, true)
}

fn opt_str(o: &Option<String>) -> (r: &str)
    ensures
        r@ == opt_text(opt_view(*o)),
{
    match o {
        Some(s) => s.as_str(),
        None => {
            let e = "";
            proof {
                reveal_strlit("");
            }
            assert(e@ =~= Seq::<char>::empty());
            e
        },
    }
}

/// Renders one table row.
pub fn row(d: &Device) -> (r: String)
    ensures
        r@ == row_text(*d),
{
    let mut out = String::new();
    out.append("<tr><td class=\"src\">");
    out.append(esc(d.source.as_str()).as_str());
    out.append("</td><td class=\"src\">");
    out.append(esc(d.source_id.as_str()).as_str());
    out.append("</td><td>");
    out.append(esc(d.name.as_str()).as_str());
    out.append("</td><td>");
    out.append(esc(opt_str(&d.manufacturer)).as_str());
    out.append("</td><td>");
    out.append(esc(opt_str(&d.model)).as_str());
    out.append("</td><td>");
    out.append(esc(opt_str(&d.kind)).as_str());
    out.append("</td><td>");
    out.append(esc(opt_str(&d.room)).as_str());
    out.append("</td></tr>\n");
    assert(out@ =~= row_text(*d));
    out
}

/// The complete HTML page with the device table and count.
pub fn devices_page(devices: &[Device]) -> (page: String)
    ensures
        page@ == devices_page_text(devices@),
{
    let mut rows = String::new();
    let mut i: usize = 0;
    while i < devices.len()
        invariant
            i <= devices@.len(),
            rows@ == rows_text(devices@.take(i as int)),
        decreases devices@.len() - i,
    {
        let r = row(&devices[i]);
        rows.append(r.as_str());
        i = i + 1;
        assert(devices@.take(i as int).drop_last() =~= devices@.take((i - 1) as int));
    }
    assert(devices@.take(devices@.len() as int) =~= devices@);
    let mut out = String::new();
    out.append("<!doctype html>\n<html lang=\"de\"><head><meta charset=\"utf-8\">\n<title>haBortfeld inventory</title>\n<style>\nbody{font-family:system-ui,sans-serif;margin:2rem;color:#222;}\nh1{margin:0 0 .25rem;}\n.count{color:#888;font-size:.9rem;margin-bottom:1rem;}\ntable{border-collapse:collapse;width:100%;}\nth,td{padding:.4rem .6rem;border-bottom:1px solid #ddd;text-align:left;font-size:.9rem;}\nth{background:#f4f4f4;font-weight:600;}\ntbody tr:hover{background:#fafafa;}\n.src{font-family:monospace;color:#666;}\n</style></head><body>\n<h1>Inventar</h1>\n<div class=\"count\">");
    let n = u64_decimal(devices.len() as u64);
    push_chars(&mut out, n.as_slice());
    out.append(" Geraete</div>\n<table>\n<thead><tr><th>Source</th><th>ID</th><th>Name</th><th>Hersteller</th><th>Modell</th><th>Art</th><th>Raum</th></tr></thead>\n<tbody>\n");
    out.append(rows.as_str());
    out.append("</tbody>\n</table>\n</body></html>");
    assert(out@ =~= devices_page_text(devices@));
    out
}

} // verus!
