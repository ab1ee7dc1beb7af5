use nutrition_journal::html::{
    Accordion, AccordionItem, Attrs, Builder, Canvas, Div, Script, Span, Table, Td, Tr, B, H, I, S,
    CSS_BOOTSTRAP_URL,
};

#[test]
fn attrs_keep_order_and_replace_values() {
    let mut a = Attrs::from_items(vec![("class", "x"), ("id", "y"), ("class", "z")]);
    assert_eq!("class=\"z\" id=\"y\"", a.to_string());
    a.insert("style", "s");
    assert_eq!("class=\"z\" id=\"y\" style=\"s\"", a.to_string());
    assert_eq!("", Attrs::new().to_string());
}

#[test]
fn simple_elements() {
    assert_eq!("<i>v</i>", I::create("v").build());
    assert_eq!("v", S::create("v").build());
    assert_eq!("&nbsp;", S::create_nbsp().build());
    assert_eq!("<canvas id=\"c\"></canvas>", Canvas::create("c").build());
    assert_eq!("<script src=\"u\"></script>", Script::create("u").build());
    assert_eq!(
        "<span><i>a</i>b</span>",
        Span::create(vec![I::create("a"), S::create("b")]).build()
    );
}

#[test]
fn bold_and_heading() {
    let b = B::new("v").set_attr(Attrs::from_items(vec![("k", "w")]));
    assert_eq!("<b k=\"w\">v</b>", b.as_box().build());
    assert_eq!("<b >v</b>", B::new("v").build());
    assert_eq!("<h3 >t</h3>", H::new("t", 3).build());
    assert_eq!("<h12 >t</h12>", H::new("t", 12).build());
    assert_eq!("<h255 a=\"b\">t</h255>", H::new("t", 255).set_attr(Attrs::from_items(vec![("a", "b")])).build());
}

#[test]
fn div_holds_elements() {
    let d = Div::new_container().add_element(I::create("x")).add_element(S::create("y"));
    assert_eq!("<div class=\"container\"><i>x</i>y</div>", d.build());
}

#[test]
fn table_rows_and_footer() {
    let mut t = Table::new(vec!["A".to_string(), "B".to_string()]);
    let row = Tr::new()
        .set_attrs(Attrs::from_items(vec![("class", "r")]))
        .add_td(Td::new(S::create("1")))
        .add_td(Td::new(S::create("2")).set_attrs(Attrs::from_items(vec![("x", "y")])));
    t.add_row(row);
    t.add_footer_element(S::create("f"));
    assert_eq!(
        "<table class=\"table table-bordered table-hover\"><thead class=\"table-light\"><tr><th>A</th><th>B</th></tr></thead><tbody><tr class=\"r\"><td >1</td><td x=\"y\">2</td></tr></tbody><tfoot>f</tfoot></table>",
        t.as_box().build()
    );
}

#[test]
fn accordion_binds_items() {
    let mut a = Accordion::new("acc");
    a.add_item(AccordionItem::new("i1", "Head", S::create("body")));
    let html = a.build();
    assert!(html.starts_with("<div class=\"accordion\" id=\"acc\">"));
    assert!(html.contains("data-bs-parent=\"#acc\""));
    assert!(html.contains("<b>Head</b>"));
    assert!(html.contains("body"));
    assert!(html.ends_with("</div>"));
}

#[test]
fn page_has_title_and_body() {
    let mut b = Builder::new("T");
    b.add(vec![S::create("x"), S::create("y")]);
    let page = b.build();
    assert!(page.contains("<title>T</title>"));
    assert!(page.contains(CSS_BOOTSTRAP_URL));
    assert!(page.ends_with("<body>xy</body></html>"));
}

#[test]
fn default_row_is_empty() {
    assert_eq!("<tr ></tr>", Tr::default().build());
}
