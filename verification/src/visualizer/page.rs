//! The HTML page that shows the data flow of a mapping document.
use crate::ast::{Filter, Transform, UsmlDocument};
use crate::resolver::openapi::parse_openapi_ref;
use crate::resolver::{tables, DbmlTable, TableFacts};
use crate::text::{
    decimal, decimal_text, join_texts, joined, same_text, sort_texts, sorted, text3, texts,
    uppercase,
};
use crate::validator::mapping::pairs;
use crate::validator::resolve::openapi_target;
use crate::visualizer::{
    alias_target, aliased, depth_class, depth_class_of, entries, escape_html, flow_model,
    flow_of, html_escaped, EntryFacts, FieldEntry, FlowFacts, FlowModel,
};
use vstd::prelude::*;

verus! {

/// The head of the page, with its style sheet.
pub const PAGE_HEAD: &'static str = "<!DOCTYPE html>
<html>
<head>
<meta charset=\"utf-8\">
<title>USML Data Flow Visualizer</title>
<link rel=\"stylesheet\" href=\"https://cdnjs.cloudflare.com/ajax/libs/font-awesome/6.4.0/css/all.min.css\">
<style>
body { font-family: 'Inter', 'Helvetica Neue', Arial, sans-serif; background: #f5f7fa; color: #1f2a37; margin: 0; padding: 0; }
.header { background: #fff; border-bottom: 2px solid #e5e7eb; padding: 24px 32px 0 32px; }
.header h1 { font-size: 1.8rem; margin: 0 0 8px 0; color: #1f2937; }
.header .summary { font-size: 0.95rem; color: #6b7280; margin-bottom: 16px; line-height: 1.5; }
.api-info { display: flex; align-items: center; gap: 12px; margin-bottom: 24px; flex-wrap: wrap; }
.method-badge { display: inline-block; padding: 4px 10px; border-radius: 4px; font-size: 0.75rem; font-weight: 700; text-transform: uppercase; letter-spacing: 0.05em; }
.method-get { background: #dbeafe; color: #1e40af; }
.method-post { background: #dcfce7; color: #15803d; }
.method-put { background: #fef3c7; color: #92400e; }
.method-delete { background: #fee2e2; color: #991b1b; }
.method-patch { background: #f3e8ff; color: #6b21a8; }
.api-path { font-family: 'Monaco', 'Menlo', monospace; font-size: 0.9rem; color: #374151; background: #f3f4f6; padding: 6px 12px; border-radius: 4px; }
.status-badge { display: inline-block; padding: 4px 10px; border-radius: 4px; font-size: 0.75rem; font-weight: 600; background: #d1fae5; color: #065f46; }
.tabs { display: flex; gap: 4px; margin-top: 0; }
.tab { display: flex; align-items: center; gap: 8px; padding: 12px 24px; background: transparent; color: #6b7280; border: none; border-bottom: 3px solid transparent; cursor: pointer; font-size: 0.95rem; font-weight: 500; transition: all 0.2s; }
.tab:hover { color: #1f2937; background: #f9fafb; }
.tab.active { color: #3b82f6; border-bottom-color: #3b82f6; }
.tab i { font-size: 1.1rem; }
.main-content { padding: 32px 32px 80px 32px; background: #fff; min-height: calc(100vh - 180px); }
.view { display: none; }
.view.active { display: block; }
.grid { display: grid; grid-template-columns: repeat(3, 1fr); gap: 16px; align-items: start; }
.column h2 { font-size: 1.1rem; margin-bottom: 12px; }
.card { border-radius: 12px; padding: 12px 16px; margin-bottom: 12px; box-shadow: 0 4px 12px rgba(15, 23, 42, 0.08); transition: all 0.2s ease; }
.response-card { background: #e8f4fd; }
.join-card { background: #fff8e1; }
.table-card { background: #f0faf0; }
.badge { display: inline-block; background: #6c757d; color: #fff; border-radius: 999px; font-size: 0.72rem; padding: 2px 8px; margin-right: 4px; }
.field-name { font-weight: 600; margin-bottom: 6px; }
.field-name.small { font-weight: 500; font-size: 0.9rem; color: #394150; }
.join-line, .transform-line { font-size: 0.9rem; margin-top: 4px; }
.empty { color: #6b7280; font-size: 0.9rem; }
.depth-1 { margin-left: 24px; padding-left: 12px; border-left: 3px solid #3b82f6; background: #dbeafe !important; }
.depth-2 { margin-left: 48px; padding-left: 12px; border-left: 3px solid #8b5cf6; background: #e9d5ff !important; }
.depth-3 { margin-left: 72px; padding-left: 12px; border-left: 3px solid #ec4899; background: #fce7f3 !important; }
.depth-4 { margin-left: 96px; padding-left: 12px; border-left: 3px solid #f59e0b; background: #fef3c7 !important; }
#flow-container { position: relative; }
#flow-svg { position: absolute; top: 0; left: 0; width: 100%; height: 100%; pointer-events: none; z-index: 10; }
.arrow-simple { stroke: #9ca3af; }
.arrow-join { stroke: #d4a017; }
.arrow-join-chain { stroke: #3b82f6; }
.arrow-aggregate { stroke: #8b5cf6; }
.card.highlighted { box-shadow: 0 0 24px rgba(251,191,36,0.9), 0 0 12px rgba(251,191,36,0.6); transform: scale(1.05); border: 3px solid #fbbf24; }
.legend { position: fixed; bottom: 0; left: 0; right: 0; z-index: 100; display: none; gap: 16px; flex-wrap: wrap; justify-content: center; padding: 12px 16px; background: #fff; border-top: 2px solid #e5e7eb; box-shadow: 0 -4px 12px rgba(0,0,0,0.1); }
.legend.active { display: flex; }
.legend-item { display: flex; align-items: center; gap: 6px; font-size: 0.85rem; }
.legend-line { width: 28px; height: 3px; border-radius: 2px; }
table { width: 100%; border-collapse: collapse; background: #fff; border-radius: 8px; overflow: hidden; box-shadow: 0 2px 8px rgba(0,0,0,0.1); }
thead { background: #374151; color: #fff; }
th { padding: 12px 16px; text-align: left; font-weight: 600; font-size: 0.9rem; }
td { padding: 12px 16px; border-bottom: 1px solid #e5e7eb; }
tbody tr:last-child td { border-bottom: none; }
tbody tr:hover { background: #f9fafb; }
.table-section { margin-bottom: 32px; }
.table-section h2 { font-size: 1.3rem; margin-bottom: 16px; }
.indent-1 { padding-left: 32px; background: #eff6ff; }
.indent-2 { padding-left: 48px; background: #f3e8ff; }
.indent-3 { padding-left: 64px; background: #fce7f3; }
.indent-4 { padding-left: 80px; background: #fef3c7; }
code.inline { background: #e5e7eb; padding: 2px 6px; border-radius: 4px; font-size: 0.9em; }
</style>
</head>
<body>
";

/// The tabs that switch between the two views; they close the header.
pub const VIEW_TABS: &'static str = "<div class=\"tabs\">
<button class=\"tab active\" onclick=\"switchView('table', event)\"><i class=\"fas fa-table\"></i> テーブル</button>
<button class=\"tab\" onclick=\"switchView('visual', event)\"><i class=\"fas fa-project-diagram\"></i> ビジュアル</button>
</div></div>
";

/// The script of the page: it switches the views, highlights what belongs to
/// a field, and draws the flows from the fields to their tables.
pub const PAGE_SCRIPT: &'static str = "<script>
function switchView(viewName, event) {
  document.querySelectorAll('.view').forEach(function(v) { v.classList.remove('active'); });
  document.querySelectorAll('.tab').forEach(function(b) { b.classList.remove('active'); });
  document.getElementById(viewName + '-view').classList.add('active');
  if (event && event.target) {
    event.target.classList.add('active');
  }
}

(function() {
  function setupHover() {
    document.querySelectorAll('.response-card[data-field]').forEach(function(card) {
      card.addEventListener('mouseenter', function() {
        var field = card.dataset.field;
        var tables = (card.dataset.tables || '').split(',').filter(function(t) { return t.length > 0; });
        card.classList.add('highlighted');
        document.querySelectorAll('.join-card[data-field=\"' + field + '\"]').forEach(function(c) { c.classList.add('highlighted'); });
        tables.forEach(function(t) {
          var tc = document.querySelector('.table-card[data-table=\"' + t + '\"]');
          if (tc) tc.classList.add('highlighted');
        });
      });
      card.addEventListener('mouseleave', function() {
        document.querySelectorAll('.card').forEach(function(c) { c.classList.remove('highlighted'); });
      });
    });
  }
  window.addEventListener('load', function() {
    setupHover();
  });
})();

(function() {
  var colors = { 'simple': '#9ca3af', 'join': '#d4a017', 'join-chain': '#3b82f6', 'aggregate': '#8b5cf6' };
  var labels = { 'simple': 'Simple', 'join': 'JOIN', 'join-chain': 'JOIN Chain', 'aggregate': 'Aggregate' };
  function flowLegend() {
    var legend = document.querySelector('.legend');
    if (legend) { return legend; }
    legend = document.createElement('div');
    legend.className = 'legend';
    Object.keys(colors).forEach(function(kind) {
      var item = document.createElement('div');
      item.className = 'legend-item';
      var line = document.createElement('span');
      line.className = 'legend-line';
      line.style.background = colors[kind];
      item.appendChild(line);
      item.appendChild(document.createTextNode(labels[kind]));
      legend.appendChild(item);
    });
    document.body.appendChild(legend);
    return legend;
  }
  function drawFlows() {
    var view = document.getElementById('visual-view');
    var grid = view ? view.querySelector('.grid') : null;
    if (!grid) { return; }
    var shown = view.classList.contains('active');
    flowLegend().classList.toggle('active', shown);
    grid.id = 'flow-container';
    var svg = document.getElementById('flow-svg');
    if (!svg) {
      svg = document.createElementNS('http://www.w3.org/2000/svg', 'svg');
      svg.setAttribute('id', 'flow-svg');
      grid.appendChild(svg);
    }
    while (svg.firstChild) { svg.removeChild(svg.firstChild); }
    if (!shown) { return; }
    var box = grid.getBoundingClientRect();
    grid.querySelectorAll('.response-card[data-field]').forEach(function(card) {
      var from = card.getBoundingClientRect();
      var kind = card.dataset.joinType || 'simple';
      (card.dataset.tables || '').split(',').forEach(function(name) {
        var target = name.length > 0 ? grid.querySelector('.table-card[data-table=\"' + name + '\"]') : null;
        if (!target) { return; }
        var to = target.getBoundingClientRect();
        var line = document.createElementNS('http://www.w3.org/2000/svg', 'line');
        line.setAttribute('x1', from.right - box.left);
        line.setAttribute('y1', from.top + from.height / 2 - box.top);
        line.setAttribute('x2', to.left - box.left);
        line.setAttribute('y2', to.top + to.height / 2 - box.top);
        line.setAttribute('class', 'arrow-' + kind);
        line.setAttribute('stroke-width', '2');
        svg.appendChild(line);
      });
    });
  }
  window.addEventListener('load', function() {
    drawFlows();
    document.querySelectorAll('.tab').forEach(function(tab) {
      tab.addEventListener('click', function() { window.setTimeout(drawFlows, 0); });
    });
  });
  window.addEventListener('resize', drawFlows);
})();
</script>
";

/// The end of the page.
pub const PAGE_END: &'static str = "</body>
</html>
";

/// A text as inline code.
pub open spec fn inline_code(s: Seq<char>) -> Seq<char> {
    "<code class=\"inline\">"@ + html_escaped(s) + "</code>"@
}

/// A text as inline code.
pub fn inline_code_text(s: &str) -> (r: String)
    ensures
        r@ == inline_code(s@),
{
    let escaped = escape_html(s);
    text3("<code class=\"inline\">", escaped.as_str(), "</code>")
}

/// The texts of a list as inline code, with commas between them.
pub open spec fn inline_codes(list: Seq<Seq<char>>) -> Seq<char> {
    joined(list.map_values(|s: Seq<char>| inline_code(s)), ", "@)
}

/// The texts of a list as inline code, with commas between them.
pub fn inline_codes_text(list: &Vec<String>) -> (r: String)
    ensures
        r@ == inline_codes(texts(list@)),
{
    let ghost all = texts(list@).map_values(|s: Seq<char>| inline_code(s));
    let mut codes: Vec<String> = Vec::new();
    let mut i: usize = 0;
    proof {
        assert(texts(codes@) =~= all.take(0));
    }
    while i < list.len()
        invariant
            i <= list.len(),
            all == texts(list@).map_values(|s: Seq<char>| inline_code(s)),
            texts(codes@) == all.take(i as int),
        decreases list.len() - i,
    {
        let code = inline_code_text(list[i].as_str());
        proof {
            assert(all[i as int] == inline_code(list@[i as int]@));
            assert(texts(codes@.push(code)) =~= texts(codes@).push(code@));
            assert(all.take(i + 1) =~= all.take(i as int).push(all[i as int]));
        }
        codes.push(code);
        i += 1;
    }
    proof {
        assert(all.take(list.len() as int) =~= all);
    }
    join_texts(&codes, ", ")
}

/// The texts of a list as badges.
pub open spec fn badges_html(list: Seq<Seq<char>>) -> Seq<char>
    decreases list.len(),
{
    if list.len() == 0 {
        Seq::empty()
    } else {
        badges_html(list.drop_last()) + "<span class=\"badge\">"@ + html_escaped(list.last())
            + "</span>"@
    }
}

/// The texts of a list as badges.
pub fn badges_text(list: &Vec<String>) -> (r: String)
    ensures
        r@ == badges_html(texts(list@)),
{
    let ghost all = texts(list@);
    let mut r = String::new();
    let mut i: usize = 0;
    proof {
        assert(all.take(0) =~= Seq::<Seq<char>>::empty());
    }
    while i < list.len()
        invariant
            i <= list.len(),
            all == texts(list@),
            r@ == badges_html(all.take(i as int)),
        decreases list.len() - i,
    {
        proof {
            assert(all.take(i + 1).drop_last() =~= all.take(i as int));
            assert(all.take(i + 1).last() == list@[i as int]@);
        }
        let escaped = escape_html(list[i].as_str());
        r.append("<span class=\"badge\">");
        r.append(escaped.as_str());
        r.append("</span>");
        i += 1;
    }
    proof {
        assert(all.take(list.len() as int) =~= all);
    }
    r
}

/// The class of the badge of a method in upper case.
pub open spec fn method_class(upper: Seq<char>) -> Seq<char> {
    if upper == "GET"@ {
        "method-get"@
    } else if upper == "POST"@ {
        "method-post"@
    } else if upper == "PUT"@ {
        "method-put"@
    } else if upper == "DELETE"@ {
        "method-delete"@
    } else if upper == "PATCH"@ {
        "method-patch"@
    } else {
        "method-get"@
    }
}

/// The line that shows the operation that a document maps: its method, its
/// path and its status. A document whose OpenAPI reference names none has no
/// such line.
pub open spec fn api_info_html(doc: UsmlDocument) -> Seq<char> {
    match openapi_target(doc) {
        Some(target) => "<div class=\"api-info\">\n<span class=\"method-badge "@ + method_class(
            uppercase(target.2),
        ) + "\">"@ + html_escaped(uppercase(target.2)) + "</span><span class=\"api-path\">"@
            + html_escaped(target.1) + "</span><span class=\"status-badge\">Status: "@
            + html_escaped(target.3) + "</span></div>\n"@,
        None => Seq::empty(),
    }
}

/// The line that shows the operation that a document maps.
pub fn api_info(doc: &UsmlDocument) -> (r: String)
    ensures
        r@ == api_info_html(*doc),
{
    match &doc.import.openapi {
        Some(reference) => match parse_openapi_ref(reference.as_str()) {
            Some((_, path, method, status)) => {
                let upper = method.to_uppercase();
                let class = if same_text(upper.as_str(), "GET") {
                    "method-get"
                } else if same_text(upper.as_str(), "POST") {
                    "method-post"
                } else if same_text(upper.as_str(), "PUT") {
                    "method-put"
                } else if same_text(upper.as_str(), "DELETE") {
                    "method-delete"
                } else if same_text(upper.as_str(), "PATCH") {
                    "method-patch"
                } else {
                    "method-get"
                };
                let method_text = escape_html(upper.as_str());
                let path_text = escape_html(path);
                let status_text = escape_html(status);
                let mut r = String::from_str("<div class=\"api-info\">\n<span class=\"method-badge ");
                r.append(class);
                r.append("\">");
                r.append(method_text.as_str());
                r.append("</span><span class=\"api-path\">");
                r.append(path_text.as_str());
                r.append("</span><span class=\"status-badge\">Status: ");
                r.append(status_text.as_str());
                r.append("</span></div>\n");
                r
            },
            None => String::new(),
        },
        None => String::new(),
    }
}

/// The summary of a use case, where it has one.
pub open spec fn summary_html(doc: UsmlDocument) -> Seq<char> {
    match doc.usecase.summary {
        Some(summary) => "<p class=\"summary\">"@ + html_escaped(summary@) + "</p>"@,
        None => Seq::empty(),
    }
}

/// The header of the page: the name of the use case, its summary, the
/// operation, and the tabs.
pub open spec fn header_html(doc: UsmlDocument) -> Seq<char> {
    "<div class=\"header\">\n<h1>"@ + html_escaped(doc.usecase.name@) + "</h1>"@ + summary_html(
        doc,
    ) + api_info_html(doc) + VIEW_TABS@
}

/// The header of the page.
pub fn header(doc: &UsmlDocument) -> (r: String)
    ensures
        r@ == header_html(*doc),
{
    let name = escape_html(doc.usecase.name.as_str());
    let summary = match &doc.usecase.summary {
        Some(summary) => {
            let escaped = escape_html(summary.as_str());
            text3("<p class=\"summary\">", escaped.as_str(), "</p>")
        },
        None => String::new(),
    };
    let info = api_info(doc);
    let mut r = text3("<div class=\"header\">\n<h1>", name.as_str(), "</h1>");
    r.append(summary.as_str());
    r.append(info.as_str());
    r.append(VIEW_TABS);
    r
}

/// The badges of a card, in a block of their own, where there are some.
pub open spec fn badge_block_html(list: Seq<Seq<char>>) -> Seq<char> {
    if list.len() > 0 {
        "<div>"@ + badges_html(list) + "</div>"@
    } else {
        Seq::empty()
    }
}

/// The badges of a card, in a block of their own, where there are some.
pub fn badge_block(list: &Vec<String>) -> (r: String)
    ensures
        r@ == badge_block_html(texts(list@)),
{
    if list.len() > 0 {
        let badges = badges_text(list);
        text3("<div>", badges.as_str(), "</div>")
    } else {
        String::new()
    }
}

/// The card of a field in the column of the response.
pub open spec fn response_card_html(entry: EntryFacts) -> Seq<char> {
    "<div class=\"card response-card"@ + depth_class_of(entry.depth) + "\" data-field=\""@
        + html_escaped(entry.field_path) + "\" data-tables=\""@ + html_escaped(
        joined(entry.tables, ","@),
    ) + "\" data-join-type=\""@ + html_escaped(entry.join_type)
        + "\"><div class=\"field-name\">"@ + html_escaped(entry.field) + "</div>"@
        + badge_block_html(entry.badges) + "</div>\n"@
}

/// The card of a field in the column of the response.
pub fn response_card(entry: &FieldEntry) -> (r: String)
    ensures
        r@ == response_card_html(entry@),
{
    let class = depth_class(entry.depth);
    let path = escape_html(entry.field_path.as_str());
    let names = join_texts(&entry.tables, ",");
    let names_text = escape_html(names.as_str());
    let kind = escape_html(entry.join_type.as_str());
    let field = escape_html(entry.field.as_str());
    let badges = badge_block(&entry.badges);
    let mut r = String::from_str("<div class=\"card response-card");
    r.append(class.as_str());
    r.append("\" data-field=\"");
    r.append(path.as_str());
    r.append("\" data-tables=\"");
    r.append(names_text.as_str());
    r.append("\" data-join-type=\"");
    r.append(kind.as_str());
    r.append("\"><div class=\"field-name\">");
    r.append(field.as_str());
    r.append("</div>");
    r.append(badges.as_str());
    r.append("</div>\n");
    r
}

/// The cards of the fields of a list, in their order.
pub open spec fn response_cards_html(list: Seq<EntryFacts>) -> Seq<char>
    decreases list.len(),
{
    if list.len() == 0 {
        Seq::empty()
    } else {
        response_cards_html(list.drop_last()) + response_card_html(list.last())
    }
}

/// The column of the response: the card of each field, or a note that there
/// is none.
pub open spec fn response_column_html(list: Seq<EntryFacts>) -> Seq<char> {
    "<div class=\"column\">\n<h2>Response Fields</h2>\n"@ + (if list.len() == 0 {
        "<div class=\"empty\">No response mappings.</div>"@
    } else {
        response_cards_html(list)
    }) + "</div>\n"@
}

/// The column of the response.
pub fn response_column(list: &Vec<FieldEntry>) -> (r: String)
    ensures
        r@ == response_column_html(entries(list@)),
{
    let ghost all = entries(list@);
    let mut cards = String::new();
    let mut i: usize = 0;
    proof {
        assert(all.take(0) =~= Seq::<EntryFacts>::empty());
    }
    while i < list.len()
        invariant
            i <= list.len(),
            all == entries(list@),
            cards@ == response_cards_html(all.take(i as int)),
        decreases list.len() - i,
    {
        proof {
            assert(all.take(i + 1).drop_last() =~= all.take(i as int));
            assert(all.take(i + 1).last() == list@[i as int]@);
        }
        let card = response_card(&list[i]);
        cards.append(card.as_str());
        i += 1;
    }
    proof {
        assert(all.take(list.len() as int) =~= all);
    }
    let inner = if list.len() == 0 {
        String::from_str("<div class=\"empty\">No response mappings.</div>")
    } else {
        cards
    };
    text3("<div class=\"column\">\n<h2>Response Fields</h2>\n", inner.as_str(), "</div>\n")
}

/// The label of the way in which a field gets its value.
pub open spec fn join_label(join_type: Seq<char>) -> Seq<char> {
    if join_type == "simple"@ {
        "Simple"@
    } else if join_type == "join"@ {
        "JOIN"@
    } else if join_type == "join-chain"@ {
        "JOIN Chain"@
    } else if join_type == "aggregate"@ {
        "Aggregate"@
    } else {
        "Simple"@
    }
}

/// The lines of a list, each in a block of its own.
pub open spec fn join_lines_html(list: Seq<Seq<char>>) -> Seq<char>
    decreases list.len(),
{
    if list.len() == 0 {
        Seq::empty()
    } else {
        join_lines_html(list.drop_last()) + "<div class=\"join-line\">"@ + html_escaped(
            list.last(),
        ) + "</div>"@
    }
}

/// The lines of a list, each in a block of its own.
pub fn join_lines_text(list: &Vec<String>) -> (r: String)
    ensures
        r@ == join_lines_html(texts(list@)),
{
    let ghost all = texts(list@);
    let mut r = String::new();
    let mut i: usize = 0;
    proof {
        assert(all.take(0) =~= Seq::<Seq<char>>::empty());
    }
    while i < list.len()
        invariant
            i <= list.len(),
            all == texts(list@),
            r@ == join_lines_html(all.take(i as int)),
        decreases list.len() - i,
    {
        proof {
            assert(all.take(i + 1).drop_last() =~= all.take(i as int));
            assert(all.take(i + 1).last() == list@[i as int]@);
        }
        let escaped = escape_html(list[i].as_str());
        r.append("<div class=\"join-line\">");
        r.append(escaped.as_str());
        r.append("</div>");
        i += 1;
    }
    proof {
        assert(all.take(list.len() as int) =~= all);
    }
    r
}

/// The transforms of a card, under their heading, where there are some.
pub open spec fn transform_block_html(list: Seq<Seq<char>>) -> Seq<char> {
    if list.len() > 0 {
        "<div class=\"transform-line\">Transforms:</div><div>"@ + badges_html(list) + "</div>"@
    } else {
        Seq::empty()
    }
}

/// The transforms of a card, under their heading, where there are some.
pub fn transform_block(list: &Vec<String>) -> (r: String)
    ensures
        r@ == transform_block_html(texts(list@)),
{
    if list.len() > 0 {
        let badges = badges_text(list);
        text3("<div class=\"transform-line\">Transforms:</div><div>", badges.as_str(), "</div>")
    } else {
        String::new()
    }
}

/// A field has a card in the column of joins and transforms: it has a join
/// line or a transform.
pub open spec fn has_join_card(entry: EntryFacts) -> bool {
    entry.join_lines.len() > 0 || entry.transforms.len() > 0
}

/// The card of a field in the column of joins and transforms.
pub open spec fn join_card_html(entry: EntryFacts) -> Seq<char> {
    "<div class=\"card join-card"@ + depth_class_of(entry.depth) + "\" data-field=\""@
        + html_escaped(entry.field_path) + "\"><div class=\"field-name small\">"@ + html_escaped(
        entry.field,
    ) + "</div><div style=\"margin-bottom: 6px;\"><span class=\"badge\">"@ + join_label(
        entry.join_type,
    ) + "</span></div>"@ + join_lines_html(entry.join_lines) + transform_block_html(
        entry.transforms,
    ) + "</div>\n"@
}

/// The card of a field in the column of joins and transforms.
pub fn join_card(entry: &FieldEntry) -> (r: String)
    ensures
        r@ == join_card_html(entry@),
{
    let class = depth_class(entry.depth);
    let path = escape_html(entry.field_path.as_str());
    let field = escape_html(entry.field.as_str());
    let kind = entry.join_type.as_str();
    let label = if same_text(kind, "simple") {
        "Simple"
    } else if same_text(kind, "join") {
        "JOIN"
    } else if same_text(kind, "join-chain") {
        "JOIN Chain"
    } else if same_text(kind, "aggregate") {
        "Aggregate"
    } else {
        "Simple"
    };
    let lines = join_lines_text(&entry.join_lines);
    let transforms = transform_block(&entry.transforms);
    let mut r = String::from_str("<div class=\"card join-card");
    r.append(class.as_str());
    r.append("\" data-field=\"");
    r.append(path.as_str());
    r.append("\"><div class=\"field-name small\">");
    r.append(field.as_str());
    r.append("</div><div style=\"margin-bottom: 6px;\"><span class=\"badge\">");
    r.append(label);
    r.append("</span></div>");
    r.append(lines.as_str());
    r.append(transforms.as_str());
    r.append("</div>\n");
    r
}

/// The cards of the fields of a list that have one in the column of joins
/// and transforms, in their order.
pub open spec fn join_cards_html(list: Seq<EntryFacts>) -> Seq<char>
    decreases list.len(),
{
    if list.len() == 0 {
        Seq::empty()
    } else if has_join_card(list.last()) {
        join_cards_html(list.drop_last()) + join_card_html(list.last())
    } else {
        join_cards_html(list.drop_last())
    }
}

/// A field of the list has a card in the column of joins and transforms.
pub open spec fn any_join_card(list: Seq<EntryFacts>) -> bool
    decreases list.len(),
{
    if list.len() == 0 {
        false
    } else {
        any_join_card(list.drop_last()) || has_join_card(list.last())
    }
}

/// The column of joins and transforms: the card of each field that has
/// one, or a note that there is none.
pub open spec fn join_column_html(list: Seq<EntryFacts>) -> Seq<char> {
    "<div class=\"column\">\n<h2>Joins &amp; Transforms</h2>\n"@ + (if any_join_card(list) {
        join_cards_html(list)
    } else {
        "<div class=\"empty\">No joins or transforms.</div>"@
    }) + "</div>\n"@
}

/// The column of joins and transforms.
pub fn join_column(list: &Vec<FieldEntry>) -> (r: String)
    ensures
        r@ == join_column_html(entries(list@)),
{
    let ghost all = entries(list@);
    let mut cards = String::new();
    let mut any = false;
    let mut i: usize = 0;
    proof {
        assert(all.take(0) =~= Seq::<EntryFacts>::empty());
    }
    while i < list.len()
        invariant
            i <= list.len(),
            all == entries(list@),
            cards@ == join_cards_html(all.take(i as int)),
            any == any_join_card(all.take(i as int)),
        decreases list.len() - i,
    {
        proof {
            assert(all.take(i + 1).drop_last() =~= all.take(i as int));
            assert(all.take(i + 1).last() == list@[i as int]@);
        }
        if list[i].join_lines.len() > 0 || list[i].transforms.len() > 0 {
            let card = join_card(&list[i]);
            cards.append(card.as_str());
            any = true;
        }
        i += 1;
    }
    proof {
        assert(all.take(list.len() as int) =~= all);
    }
    let inner = if any {
        cards
    } else {
        String::from_str("<div class=\"empty\">No joins or transforms.</div>")
    };
    text3("<div class=\"column\">\n<h2>Joins &amp; Transforms</h2>\n", inner.as_str(), "</div>\n")
}

/// The name of a table on its card: the table that it stands for with the
/// name as its alias, or the name itself.
pub open spec fn card_name_html(name: Seq<char>, aliases: Seq<(Seq<char>, Seq<char>)>) -> Seq<
    char,
> {
    match aliased(aliases, name) {
        Some(actual) => actual + " <span style=\"color: #6b7280; font-weight: 400;\">(as "@ + name
            + ")</span>"@,
        None => name,
    }
}

/// A column on the card of a table.
pub open spec fn card_column_html(column: Seq<char>) -> Seq<char> {
    "<code style=\"background: #e5e7eb; padding: 2px 6px; border-radius: 4px; font-size: 0.85rem;\">"@
        + html_escaped(column) + "</code>"@
}

/// The columns on the card of a table, in the order of texts, with commas
/// between them, or a note that there is none.
pub open spec fn card_columns_html(columns: Seq<Seq<char>>) -> Seq<char> {
    if columns.len() > 0 {
        "<div class=\"join-line\">Columns:</div><div style=\"margin-top: 4px;\">"@ + joined(
            sorted(columns).map_values(|c: Seq<char>| card_column_html(c)),
            ", "@,
        ) + "</div>"@
    } else {
        "<div class=\"join-line\" style=\"color: #9ca3af;\">No columns referenced</div>"@
    }
}

/// The columns on the card of a table.
pub fn card_columns(columns: &Vec<String>) -> (r: String)
    ensures
        r@ == card_columns_html(texts(columns@)),
{
    if columns.len() > 0 {
        let ordered = sort_texts(columns);
        let ghost all = texts(ordered@).map_values(|c: Seq<char>| card_column_html(c));
        let mut codes: Vec<String> = Vec::new();
        let mut i: usize = 0;
        proof {
            assert(texts(codes@) =~= all.take(0));
        }
        while i < ordered.len()
            invariant
                i <= ordered.len(),
                all == texts(ordered@).map_values(|c: Seq<char>| card_column_html(c)),
                texts(codes@) == all.take(i as int),
            decreases ordered.len() - i,
        {
            let escaped = escape_html(ordered[i].as_str());
            let code = text3(
                "<code style=\"background: #e5e7eb; padding: 2px 6px; border-radius: 4px; font-size: 0.85rem;\">",
                escaped.as_str(),
                "</code>",
            );
            proof {
                assert(all[i as int] == card_column_html(ordered@[i as int]@));
                assert(texts(codes@.push(code)) =~= texts(codes@).push(code@));
                assert(all.take(i + 1) =~= all.take(i as int).push(all[i as int]));
            }
            codes.push(code);
            i += 1;
        }
        proof {
            assert(all.take(ordered.len() as int) =~= all);
        }
        let list = join_texts(&codes, ", ");
        text3(
            "<div class=\"join-line\">Columns:</div><div style=\"margin-top: 4px;\">",
            list.as_str(),
            "</div>",
        )
    } else {
        String::from_str(
            "<div class=\"join-line\" style=\"color: #9ca3af;\">No columns referenced</div>",
        )
    }
}

/// The card of a table.
pub open spec fn table_card_html(table: TableFacts, aliases: Seq<(Seq<char>, Seq<char>)>) -> Seq<
    char,
> {
    "<div class=\"card table-card\" data-table=\""@ + html_escaped(table.name)
        + "\"><div class=\"field-name\">"@ + card_name_html(table.name, aliases) + "</div>"@
        + card_columns_html(table.columns) + "</div>\n"@
}

/// The card of a table.
pub fn table_card(table: &DbmlTable, aliases: &Vec<(String, String)>) -> (r: String)
    ensures
        r@ == table_card_html(table@, pairs(aliases@)),
{
    let name = escape_html(table.name.as_str());
    let shown = match alias_target(aliases, table.name.as_str()) {
        Some(actual) => {
            let mut shown = actual.clone();
            shown.append(" <span style=\"color: #6b7280; font-weight: 400;\">(as ");
            shown.append(table.name.as_str());
            shown.append(")</span>");
            shown
        },
        None => table.name.clone(),
    };
    let columns = card_columns(&table.columns);
    let mut r = String::from_str("<div class=\"card table-card\" data-table=\"");
    r.append(name.as_str());
    r.append("\"><div class=\"field-name\">");
    r.append(shown.as_str());
    r.append("</div>");
    r.append(columns.as_str());
    r.append("</div>\n");
    r
}

/// The cards of the tables of a list, in their order.
pub open spec fn table_cards_html(list: Seq<TableFacts>, aliases: Seq<(Seq<char>, Seq<char>)>) -> Seq<
    char,
>
    decreases list.len(),
{
    if list.len() == 0 {
        Seq::empty()
    } else {
        table_cards_html(list.drop_last(), aliases) + table_card_html(list.last(), aliases)
    }
}

/// The column of the tables: the card of each table, or a note that there
/// is none.
pub open spec fn table_column_html(list: Seq<TableFacts>, aliases: Seq<(Seq<char>, Seq<char>)>) -> Seq<
    char,
> {
    "<div class=\"column\">\n<h2>Tables</h2>\n"@ + (if list.len() == 0 {
        "<div class=\"empty\">No tables imported.</div>"@
    } else {
        table_cards_html(list, aliases)
    }) + "</div>\n"@
}

/// The column of the tables.
pub fn table_column(list: &Vec<DbmlTable>, aliases: &Vec<(String, String)>) -> (r: String)
    ensures
        r@ == table_column_html(tables(list@), pairs(aliases@)),
{
    let ghost all = tables(list@);
    let mut cards = String::new();
    let mut i: usize = 0;
    proof {
        assert(all.take(0) =~= Seq::<TableFacts>::empty());
    }
    while i < list.len()
        invariant
            i <= list.len(),
            all == tables(list@),
            cards@ == table_cards_html(all.take(i as int), pairs(aliases@)),
        decreases list.len() - i,
    {
        proof {
            assert(all.take(i + 1).drop_last() =~= all.take(i as int));
            assert(all.take(i + 1).last() == list@[i as int]@);
        }
        let card = table_card(&list[i], aliases);
        cards.append(card.as_str());
        i += 1;
    }
    proof {
        assert(all.take(list.len() as int) =~= all);
    }
    let inner = if list.len() == 0 {
        String::from_str("<div class=\"empty\">No tables imported.</div>")
    } else {
        cards
    };
    text3("<div class=\"column\">\n<h2>Tables</h2>\n", inner.as_str(), "</div>\n")
}

/// The view that shows the flow in three columns: the fields, their joins
/// and transforms, and the tables.
pub open spec fn visual_view_html(flow: FlowFacts) -> Seq<char> {
    "<div id=\"visual-view\" class=\"view\">\n<div class=\"grid\">\n"@ + response_column_html(
        flow.entries,
    ) + join_column_html(flow.entries) + table_column_html(flow.tables, flow.aliases)
        + "</div>\n</div>\n"@
}

/// The view that shows the flow in three columns.
pub fn visual_view(model: &FlowModel) -> (r: String)
    ensures
        r@ == visual_view_html(model@),
{
    let fields = response_column(&model.entries);
    let joins = join_column(&model.entries);
    let used = table_column(&model.tables, &model.aliases);
    let mut r = String::from_str("<div id=\"visual-view\" class=\"view\">\n<div class=\"grid\">\n");
    r.append(fields.as_str());
    r.append(joins.as_str());
    r.append(used.as_str());
    r.append("</div>\n</div>\n");
    r
}

/// The class that indents a row of the table of mappings.
pub open spec fn indent_class(depth: nat) -> Seq<char> {
    if depth == 1 {
        " class=\"indent-1\""@
    } else if depth == 2 {
        " class=\"indent-2\""@
    } else if depth == 3 {
        " class=\"indent-3\""@
    } else if depth == 4 {
        " class=\"indent-4\""@
    } else {
        ""@
    }
}

/// Two spaces for each level of depth.
pub open spec fn indent(depth: nat) -> Seq<char>
    decreases depth,
{
    if depth == 0 {
        Seq::empty()
    } else {
        indent((depth - 1) as nat) + "  "@
    }
}

/// The name of a field in the table of mappings: below the top it is
/// indented and marked as a branch.
pub open spec fn field_display(entry: EntryFacts) -> Seq<char> {
    if entry.depth > 0 {
        indent(entry.depth) + "\u{2514}\u{2500} "@ + entry.field
    } else {
        entry.field
    }
}

/// The name of a field in the table of mappings.
pub fn field_display_text(entry: &FieldEntry) -> (r: String)
    ensures
        r@ == field_display(entry@),
{
    if entry.depth > 0 {
        let mut r = String::new();
        let mut i: usize = 0;
        while i < entry.depth
            invariant
                i <= entry.depth,
                r@ == indent(i as nat),
            decreases entry.depth - i,
        {
            r.append("  ");
            i += 1;
        }
        r.append("\u{2514}\u{2500} ");
        r.append(entry.field.as_str());
        r
    } else {
        entry.field.clone()
    }
}

/// The texts of a list with `sep` between them, or a dash where there is
/// none.
pub open spec fn listed(list: Seq<Seq<char>>, sep: Seq<char>) -> Seq<char> {
    if list.len() > 0 {
        joined(list, sep)
    } else {
        "-"@
    }
}

/// The texts of a list with `sep` between them, or a dash where there is
/// none.
pub fn listed_text(list: &Vec<String>, sep: &str) -> (r: String)
    ensures
        r@ == listed(texts(list@), sep@),
{
    if list.len() > 0 {
        join_texts(list, sep)
    } else {
        String::from_str("-")
    }
}

/// The source of a field in the table of mappings: its source, else the
/// tables that it names, else a dash.
pub open spec fn source_cell(entry: EntryFacts) -> Seq<char> {
    match entry.source {
        Some(source) => source,
        None => listed(entry.tables, ", "@),
    }
}

/// The transforms of a field in the table of mappings.
pub open spec fn transform_cell(entry: EntryFacts) -> Seq<char> {
    if entry.transforms.len() > 0 {
        inline_codes(entry.transforms)
    } else {
        "-"@
    }
}

/// The row of a field in the table of mappings: its name, its source, its
/// badges, its joins and its transforms.
pub open spec fn mapping_row_html(entry: EntryFacts) -> Seq<char> {
    "<tr"@ + indent_class(entry.depth) + "><td><code class=\"inline\">"@ + html_escaped(
        field_display(entry),
    ) + "</code></td><td>"@ + html_escaped(source_cell(entry)) + "</td><td>"@ + html_escaped(
        listed(entry.badges, ", "@),
    ) + "</td><td>"@ + listed(entry.join_lines, "<br>"@) + "</td><td>"@ + transform_cell(entry)
        + "</td></tr>\n"@
}

/// The row of a field in the table of mappings.
pub fn mapping_row(entry: &FieldEntry) -> (r: String)
    ensures
        r@ == mapping_row_html(entry@),
{
    let class = if entry.depth == 1 {
        " class=\"indent-1\""
    } else if entry.depth == 2 {
        " class=\"indent-2\""
    } else if entry.depth == 3 {
        " class=\"indent-3\""
    } else if entry.depth == 4 {
        " class=\"indent-4\""
    } else {
        ""
    };
    let shown = field_display_text(entry);
    let field = escape_html(shown.as_str());
    let from = match &entry.source {
        Some(source) => source.clone(),
        None => listed_text(&entry.tables, ", "),
    };
    let source = escape_html(from.as_str());
    let kinds = listed_text(&entry.badges, ", ");
    let badges = escape_html(kinds.as_str());
    let joins = listed_text(&entry.join_lines, "<br>");
    let transforms = if entry.transforms.len() > 0 {
        inline_codes_text(&entry.transforms)
    } else {
        String::from_str("-")
    };
    let mut r = String::from_str("<tr");
    r.append(class);
    r.append("><td><code class=\"inline\">");
    r.append(field.as_str());
    r.append("</code></td><td>");
    r.append(source.as_str());
    r.append("</td><td>");
    r.append(badges.as_str());
    r.append("</td><td>");
    r.append(joins.as_str());
    r.append("</td><td>");
    r.append(transforms.as_str());
    r.append("</td></tr>\n");
    r
}

/// The rows of the fields of a list, in their order.
pub open spec fn mapping_rows_html(list: Seq<EntryFacts>) -> Seq<char>
    decreases list.len(),
{
    if list.len() == 0 {
        Seq::empty()
    } else {
        mapping_rows_html(list.drop_last()) + mapping_row_html(list.last())
    }
}

/// The table of mappings.
pub open spec fn mapping_table_html(list: Seq<EntryFacts>) -> Seq<char> {
    "<div class=\"table-section\"><h2>Response Mapping</h2>\n<table><thead><tr><th>Field</th><th>Source</th><th>Type</th><th>JOIN</th><th>Transforms</th></tr></thead><tbody>\n"@
        + mapping_rows_html(list) + "</tbody></table></div>\n"@
}

/// The table of mappings.
pub fn mapping_table(list: &Vec<FieldEntry>) -> (r: String)
    ensures
        r@ == mapping_table_html(entries(list@)),
{
    let ghost all = entries(list@);
    let mut rows = String::new();
    let mut i: usize = 0;
    proof {
        assert(all.take(0) =~= Seq::<EntryFacts>::empty());
    }
    while i < list.len()
        invariant
            i <= list.len(),
            all == entries(list@),
            rows@ == mapping_rows_html(all.take(i as int)),
        decreases list.len() - i,
    {
        proof {
            assert(all.take(i + 1).drop_last() =~= all.take(i as int));
            assert(all.take(i + 1).last() == list@[i as int]@);
        }
        let row = mapping_row(&list[i]);
        rows.append(row.as_str());
        i += 1;
    }
    proof {
        assert(all.take(list.len() as int) =~= all);
    }
    text3(
        "<div class=\"table-section\"><h2>Response Mapping</h2>\n<table><thead><tr><th>Field</th><th>Source</th><th>Type</th><th>JOIN</th><th>Transforms</th></tr></thead><tbody>\n",
        rows.as_str(),
        "</tbody></table></div>\n",
    )
}

/// The name of a table in the summary of tables.
pub open spec fn summary_name_html(name: Seq<char>, aliases: Seq<(Seq<char>, Seq<char>)>) -> Seq<
    char,
> {
    match aliased(aliases, name) {
        Some(actual) => "<strong>"@ + html_escaped(actual)
            + "</strong> <span style=\"color: #6b7280; font-weight: 400;\">(as "@ + html_escaped(
            name,
        ) + ")</span>"@,
        None => "<strong>"@ + html_escaped(name) + "</strong>"@,
    }
}

/// The columns of a table in the summary of tables.
pub open spec fn summary_columns_html(columns: Seq<Seq<char>>) -> Seq<char> {
    if columns.len() > 0 {
        "<td>"@ + inline_codes(sorted(columns)) + "</td>"@
    } else {
        "<td style=\"color: #9ca3af;\">No columns referenced</td>"@
    }
}

/// The row of a table in the summary of tables.
pub open spec fn summary_row_html(table: TableFacts, aliases: Seq<(Seq<char>, Seq<char>)>) -> Seq<
    char,
> {
    "<tr><td>"@ + summary_name_html(table.name, aliases) + "</td>"@ + summary_columns_html(
        table.columns,
    ) + "</tr>\n"@
}

/// The row of a table in the summary of tables.
pub fn summary_row(table: &DbmlTable, aliases: &Vec<(String, String)>) -> (r: String)
    ensures
        r@ == summary_row_html(table@, pairs(aliases@)),
{
    let name = escape_html(table.name.as_str());
    let shown = match alias_target(aliases, table.name.as_str()) {
        Some(actual) => {
            let actual_text = escape_html(actual.as_str());
            let mut shown = text3(
                "<strong>",
                actual_text.as_str(),
                "</strong> <span style=\"color: #6b7280; font-weight: 400;\">(as ",
            );
            shown.append(name.as_str());
            shown.append(")</span>");
            shown
        },
        None => text3("<strong>", name.as_str(), "</strong>"),
    };
    let columns = if table.columns.len() > 0 {
        let ordered = sort_texts(&table.columns);
        let codes = inline_codes_text(&ordered);
        text3("<td>", codes.as_str(), "</td>")
    } else {
        String::from_str("<td style=\"color: #9ca3af;\">No columns referenced</td>")
    };
    let mut r = text3("<tr><td>", shown.as_str(), "</td>");
    r.append(columns.as_str());
    r.append("</tr>\n");
    r
}

/// The rows of the tables of a list, in their order.
pub open spec fn summary_rows_html(list: Seq<TableFacts>, aliases: Seq<(Seq<char>, Seq<char>)>) -> Seq<
    char,
>
    decreases list.len(),
{
    if list.len() == 0 {
        Seq::empty()
    } else {
        summary_rows_html(list.drop_last(), aliases) + summary_row_html(list.last(), aliases)
    }
}

/// The summary of tables.
pub open spec fn tables_summary_html(list: Seq<TableFacts>, aliases: Seq<(Seq<char>, Seq<char>)>) -> Seq<
    char,
> {
    "<div class=\"table-section\"><h2>Tables Summary</h2>\n<table><thead><tr><th>Table</th><th>Columns</th></tr></thead><tbody>\n"@
        + summary_rows_html(list, aliases) + "</tbody></table></div>\n"@
}

/// The summary of tables.
pub fn tables_summary(list: &Vec<DbmlTable>, aliases: &Vec<(String, String)>) -> (r: String)
    ensures
        r@ == tables_summary_html(tables(list@), pairs(aliases@)),
{
    let ghost all = tables(list@);
    let mut rows = String::new();
    let mut i: usize = 0;
    proof {
        assert(all.take(0) =~= Seq::<TableFacts>::empty());
    }
    while i < list.len()
        invariant
            i <= list.len(),
            all == tables(list@),
            rows@ == summary_rows_html(all.take(i as int), pairs(aliases@)),
        decreases list.len() - i,
    {
        proof {
            assert(all.take(i + 1).drop_last() =~= all.take(i as int));
            assert(all.take(i + 1).last() == list@[i as int]@);
        }
        let row = summary_row(&list[i], aliases);
        rows.append(row.as_str());
        i += 1;
    }
    proof {
        assert(all.take(list.len() as int) =~= all);
    }
    text3(
        "<div class=\"table-section\"><h2>Tables Summary</h2>\n<table><thead><tr><th>Table</th><th>Columns</th></tr></thead><tbody>\n",
        rows.as_str(),
        "</tbody></table></div>\n",
    )
}

/// The condition of a filter among its details.
pub open spec fn condition_detail(filter: Filter) -> Seq<Seq<char>> {
    match filter.condition {
        Some(condition) => seq![inline_code(condition@)],
        None => Seq::empty(),
    }
}

/// The strategy of a filter among its details.
pub open spec fn strategy_detail(filter: Filter) -> Seq<Seq<char>> {
    match filter.strategy {
        Some(strategy) => seq!["strategy: "@ + inline_code(strategy@)],
        None => Seq::empty(),
    }
}

/// The page size of a filter among its details.
pub open spec fn page_size_detail(filter: Filter) -> Seq<Seq<char>> {
    match filter.page_size {
        Some(size) => seq![
            "page_size: <code class=\"inline\">"@ + decimal(size as nat) + "</code>"@,
        ],
        None => Seq::empty(),
    }
}

/// The details of a filter: its condition, its strategy and its page size, as
/// far as it has them.
pub open spec fn filter_details(filter: Filter) -> Seq<Seq<char>> {
    condition_detail(filter) + strategy_detail(filter) + page_size_detail(filter)
}

/// The row of a filter in the table of filters.
pub open spec fn filter_row_html(filter: Filter) -> Seq<char> {
    "<tr><td>"@ + inline_code(filter.param@) + "</td><td><strong>"@ + html_escaped(
        filter.maps_to@,
    ) + "</strong></td><td>"@ + listed(filter_details(filter), ", "@) + "</td></tr>\n"@
}

/// The row of a filter in the table of filters.
pub fn filter_row(filter: &Filter) -> (r: String)
    ensures
        r@ == filter_row_html(*filter),
{
    let mut details: Vec<String> = Vec::new();
    proof {
        assert(texts(details@) =~= Seq::<Seq<char>>::empty());
    }
    match &filter.condition {
        Some(condition) => {
            let detail = inline_code_text(condition.as_str());
            proof {
                assert(texts(details@.push(detail)) =~= texts(details@).push(detail@));
            }
            details.push(detail);
        },
        None => {},
    }
    proof {
        assert(texts(details@) =~= condition_detail(*filter));
    }
    match &filter.strategy {
        Some(strategy) => {
            let code = inline_code_text(strategy.as_str());
            let mut detail = String::from_str("strategy: ");
            detail.append(code.as_str());
            proof {
                assert(texts(details@.push(detail)) =~= texts(details@).push(detail@));
            }
            details.push(detail);
        },
        None => {},
    }
    proof {
        assert(texts(details@) =~= condition_detail(*filter) + strategy_detail(*filter));
    }
    match filter.page_size {
        Some(size) => {
            let number = decimal_text(size as u64);
            let detail = text3("page_size: <code class=\"inline\">", number.as_str(), "</code>");
            proof {
                assert(texts(details@.push(detail)) =~= texts(details@).push(detail@));
            }
            details.push(detail);
        },
        None => {},
    }
    proof {
        assert(texts(details@) =~= filter_details(*filter));
    }
    let param = inline_code_text(filter.param.as_str());
    let maps_to = escape_html(filter.maps_to.as_str());
    let shown = listed_text(&details, ", ");
    let mut r = text3("<tr><td>", param.as_str(), "</td><td><strong>");
    r.append(maps_to.as_str());
    r.append("</strong></td><td>");
    r.append(shown.as_str());
    r.append("</td></tr>\n");
    r
}

/// The rows of the filters of a list, in their order.
pub open spec fn filter_rows_html(list: Seq<Filter>) -> Seq<char>
    decreases list.len(),
{
    if list.len() == 0 {
        Seq::empty()
    } else {
        filter_rows_html(list.drop_last()) + filter_row_html(list.last())
    }
}

/// The table of filters, where the document has filters.
pub open spec fn filters_html(list: Seq<Filter>) -> Seq<char> {
    if list.len() > 0 {
        "<div class=\"table-section\"><h2>Filters</h2>\n<table><thead><tr><th>Parameter</th><th>Maps To</th><th>Details</th></tr></thead><tbody>\n"@
            + filter_rows_html(list) + "</tbody></table></div>\n"@
    } else {
        Seq::empty()
    }
}

/// The table of filters, where the document has filters.
pub fn filters_table(list: &Vec<Filter>) -> (r: String)
    ensures
        r@ == filters_html(list@),
{
    if list.len() == 0 {
        return String::new();
    }
    let mut rows = String::new();
    let mut i: usize = 0;
    proof {
        assert(list@.take(0) =~= Seq::<Filter>::empty());
    }
    while i < list.len()
        invariant
            i <= list.len(),
            rows@ == filter_rows_html(list@.take(i as int)),
        decreases list.len() - i,
    {
        proof {
            assert(list@.take(i + 1).drop_last() =~= list@.take(i as int));
            assert(list@.take(i + 1).last() == list@[i as int]);
        }
        let row = filter_row(&list[i]);
        rows.append(row.as_str());
        i += 1;
    }
    proof {
        assert(list@.take(list.len() as int) =~= list@);
    }
    text3(
        "<div class=\"table-section\"><h2>Filters</h2>\n<table><thead><tr><th>Parameter</th><th>Maps To</th><th>Details</th></tr></thead><tbody>\n",
        rows.as_str(),
        "</tbody></table></div>\n",
    )
}

/// The sources of a transform in the table of transforms: its list of
/// sources, else its source, else a dash.
pub open spec fn sources_cell(transform: Transform) -> Seq<char> {
    match transform.sources {
        Some(sources) => inline_codes(texts(sources@)),
        None => match transform.source {
            Some(source) => inline_code(source@),
            None => "-"@,
        },
    }
}

/// The separator of a transform among its details.
pub open spec fn separator_detail(transform: Transform) -> Seq<Seq<char>> {
    match transform.separator {
        Some(separator) => seq!["separator: "@ + inline_code(separator@)],
        None => Seq::empty(),
    }
}

/// The fallback of a transform among its details.
pub open spec fn fallback_detail(transform: Transform) -> Seq<Seq<char>> {
    match transform.fallback {
        Some(fallback) => seq!["fallback: "@ + inline_code(fallback@)],
        None => Seq::empty(),
    }
}

/// The number of the branches of a transform among its details.
pub open spec fn when_detail(transform: Transform) -> Seq<Seq<char>> {
    match transform.when {
        Some(branches) => if branches@.len() > 0 {
            seq!["when: "@ + decimal(branches@.len()) + " conditions"@]
        } else {
            Seq::empty()
        },
        None => Seq::empty(),
    }
}

/// The details of a transform: its separator, its fallback and the number of
/// its branches, as far as it has them.
pub open spec fn transform_details(transform: Transform) -> Seq<Seq<char>> {
    separator_detail(transform) + fallback_detail(transform) + when_detail(transform)
}

/// The row of a transform in the table of transforms.
pub open spec fn transform_row_html(transform: Transform) -> Seq<char> {
    "<tr><td>"@ + inline_code(transform.target@) + "</td><td><strong>"@ + html_escaped(
        transform.kind@,
    ) + "</strong></td><td>"@ + sources_cell(transform) + "</td><td>"@ + listed(
        transform_details(transform),
        ", "@,
    ) + "</td></tr>\n"@
}

/// The row of a transform in the table of transforms.
pub fn transform_row(transform: &Transform) -> (r: String)
    ensures
        r@ == transform_row_html(*transform),
{
    let sources = match &transform.sources {
        Some(sources) => inline_codes_text(sources),
        None => match &transform.source {
            Some(source) => inline_code_text(source.as_str()),
            None => String::from_str("-"),
        },
    };
    let mut details: Vec<String> = Vec::new();
    proof {
        assert(texts(details@) =~= Seq::<Seq<char>>::empty());
    }
    match &transform.separator {
        Some(separator) => {
            let code = inline_code_text(separator.as_str());
            let mut detail = String::from_str("separator: ");
            detail.append(code.as_str());
            proof {
                assert(texts(details@.push(detail)) =~= texts(details@).push(detail@));
            }
            details.push(detail);
        },
        None => {},
    }
    proof {
        assert(texts(details@) =~= separator_detail(*transform));
    }
    match &transform.fallback {
        Some(fallback) => {
            let code = inline_code_text(fallback.as_str());
            let mut detail = String::from_str("fallback: ");
            detail.append(code.as_str());
            proof {
                assert(texts(details@.push(detail)) =~= texts(details@).push(detail@));
            }
            details.push(detail);
        },
        None => {},
    }
    proof {
        assert(texts(details@) =~= separator_detail(*transform) + fallback_detail(*transform));
    }
    match &transform.when {
        Some(branches) => {
            if branches.len() > 0 {
                let number = decimal_text(branches.len() as u64);
                let detail = text3("when: ", number.as_str(), " conditions");
                proof {
                    assert(texts(details@.push(detail)) =~= texts(details@).push(detail@));
                }
                details.push(detail);
            }
        },
        None => {},
    }
    proof {
        assert(texts(details@) =~= transform_details(*transform));
    }
    let target = inline_code_text(transform.target.as_str());
    let kind = escape_html(transform.kind.as_str());
    let shown = listed_text(&details, ", ");
    let mut r = text3("<tr><td>", target.as_str(), "</td><td><strong>");
    r.append(kind.as_str());
    r.append("</strong></td><td>");
    r.append(sources.as_str());
    r.append("</td><td>");
    r.append(shown.as_str());
    r.append("</td></tr>\n");
    r
}

/// The rows of the transforms of a list, in their order.
pub open spec fn transform_rows_html(list: Seq<Transform>) -> Seq<char>
    decreases list.len(),
{
    if list.len() == 0 {
        Seq::empty()
    } else {
        transform_rows_html(list.drop_last()) + transform_row_html(list.last())
    }
}

/// The table of transforms, where the document has transforms.
pub open spec fn transforms_html(list: Seq<Transform>) -> Seq<char> {
    if list.len() > 0 {
        "<div class=\"table-section\"><h2>Transforms</h2>\n<table><thead><tr><th>Target</th><th>Type</th><th>Sources</th><th>Details</th></tr></thead><tbody>\n"@
            + transform_rows_html(list) + "</tbody></table></div>\n"@
    } else {
        Seq::empty()
    }
}

/// The table of transforms, where the document has transforms.
pub fn transforms_table(list: &Vec<Transform>) -> (r: String)
    ensures
        r@ == transforms_html(list@),
{
    if list.len() == 0 {
        return String::new();
    }
    let mut rows = String::new();
    let mut i: usize = 0;
    proof {
        assert(list@.take(0) =~= Seq::<Transform>::empty());
    }
    while i < list.len()
        invariant
            i <= list.len(),
            rows@ == transform_rows_html(list@.take(i as int)),
        decreases list.len() - i,
    {
        proof {
            assert(list@.take(i + 1).drop_last() =~= list@.take(i as int));
            assert(list@.take(i + 1).last() == list@[i as int]);
        }
        let row = transform_row(&list[i]);
        rows.append(row.as_str());
        i += 1;
    }
    proof {
        assert(list@.take(list.len() as int) =~= list@);
    }
    text3(
        "<div class=\"table-section\"><h2>Transforms</h2>\n<table><thead><tr><th>Target</th><th>Type</th><th>Sources</th><th>Details</th></tr></thead><tbody>\n",
        rows.as_str(),
        "</tbody></table></div>\n",
    )
}

/// The view that shows the document in tables: the mappings, the tables,
/// the filters and the transforms.
pub open spec fn table_view_html(flow: FlowFacts, doc: UsmlDocument) -> Seq<char> {
    mapping_table_html(flow.entries) + tables_summary_html(flow.tables, flow.aliases)
        + filters_html(doc.usecase.filters@) + transforms_html(doc.usecase.transforms@)
}

/// Adds to a page the view that shows the document in tables.
pub fn generate_table_view(html: &mut String, model: &FlowModel, doc: &UsmlDocument)
    ensures
        final(html)@ == old(html)@ + table_view_html(model@, *doc),
{
    let mappings = mapping_table(&model.entries);
    let used = tables_summary(&model.tables, &model.aliases);
    let filters = filters_table(&doc.usecase.filters);
    let transforms = transforms_table(&doc.usecase.transforms);
    html.append(mappings.as_str());
    html.append(used.as_str());
    html.append(filters.as_str());
    html.append(transforms.as_str());
    proof {
        assert(html@ =~= old(html)@ + table_view_html(model@, *doc));
    }
}

/// The page of a document: the head, the header, the two views, and the
/// script.
pub open spec fn page_html(doc: UsmlDocument) -> Seq<char> {
    PAGE_HEAD@ + header_html(doc) + "<div class=\"main-content\">\n"@ + visual_view_html(
        flow_of(doc),
    ) + "<div id=\"table-view\" class=\"view active\">\n"@ + table_view_html(flow_of(doc), doc)
        + "</div>\n</div>\n"@ + PAGE_SCRIPT@ + PAGE_END@
}

/// The HTML page that shows the data flow of a document.
pub fn generate_html(doc: &UsmlDocument) -> (html: String)
    ensures
        html@ == page_html(*doc),
{
    let model = flow_model(doc);
    let top = header(doc);
    let visual = visual_view(&model);
    let mut html = String::from_str(PAGE_HEAD);
    html.append(top.as_str());
    html.append("<div class=\"main-content\">\n");
    html.append(visual.as_str());
    html.append("<div id=\"table-view\" class=\"view active\">\n");
    generate_table_view(&mut html, &model, doc);
    html.append("</div>\n</div>\n");
    html.append(PAGE_SCRIPT);
    html.append(PAGE_END);
    html
}

} // verus!
