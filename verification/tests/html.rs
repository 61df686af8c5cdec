use blibs::html::{end_of, first, read_html, select, text_of, Simple, Test};

const PAGE: &str = r#"<html><body><table class="gi wide"><tr><th>Titel</th><td>Der <b>Vorleser</b></td></tr></table>
<table id="other"><tr><td>x</td></tr></table></body></html>"#;

#[test]
fn a_page_is_a_list_of_nodes_in_document_order() {
    let nodes = read_html(PAGE);
    assert!(nodes[0].depth == 0 && !nodes[0].element, "the document comes first");
    let tables = select(&nodes, 0, nodes.len(), Simple { name: "table", test: Test::Always }, None);
    assert_eq!(tables.len(), 2);
    let gi = first(&nodes, 0, nodes.len(), Simple { name: "table", test: Test::Class("gi") }).expect("a class among several");
    assert_eq!(gi, tables[0]);
    assert!(first(&nodes, 0, nodes.len(), Simple { name: "table", test: Test::Class("wid") }).is_none(), "a class is a whole word");
}

#[test]
fn a_selection_can_ask_for_an_ancestor() {
    let nodes = read_html(PAGE);
    let gi_cells = select(&nodes, 0, nodes.len(), Simple { name: "td", test: Test::Always }, Some(Simple { name: "table", test: Test::Class("gi") }));
    assert_eq!(gi_cells.len(), 1);
    assert_eq!(text_of(&nodes, gi_cells[0]), "Der Vorleser");
    let end = end_of(&nodes, gi_cells[0]);
    assert!(end > gi_cells[0]);
}
