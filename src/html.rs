use crate::order::text_eq;
use vstd::prelude::*;

verus! {

pub const CSS_BOOTSTRAP_URL: &'static str = "https://devldavydov.github.io/css/bootstrap/bootstrap.min.css";

pub const CSS_JS_BOOTSTRAP_URL: &'static str =
    "https://devldavydov.github.io/js/bootstrap/bootstrap.bundle.min.js";

pub const JS_CHART_URL: &'static str = "https://devldavydov.github.io/js/chartjs/chart.umd.min.js";

/// A rendered piece of a page.
pub struct Element {
    html: String,
}

impl View for Element {
    type V = Seq<char>;

    closed spec fn view(&self) -> Seq<char> {
        self.html@
    }
}

impl Element {
    pub fn from_html(html: String) -> (r: Element)
        ensures
            r@ == html@,
    {
        Element { html }
    }

    /// The markup of this piece.
    pub fn build(&self) -> (r: String)
        ensures
            r@ == self@,
    {
        self.html.clone()
    }
}

/// The markup of `es`, one after the other.
pub open spec fn concat_all(es: Seq<Element>) -> Seq<char>
    decreases es.len(),
{
    if es.len() == 0 {
        Seq::empty()
    } else {
        concat_all(es.drop_last()) + es.last()@
    }
}

fn append_all(out: &mut String, es: &Vec<Element>)
    ensures
        final(out)@ == old(out)@ + concat_all(es@),
{
    let mut i: usize = 0;
    while i < es.len()
        invariant
            i <= es@.len(),
            out@ == old(out)@ + concat_all(es@.take(i as int)),
        decreases es.len() - i,
    {
        proof {
            assert(es@.take(i + 1).drop_last() =~= es@.take(i as int));
        }
        let s = es[i].build();
        out.append(s.as_str());
        proof {
            assert(out@ =~= old(out)@ + concat_all(es@.take(i + 1)));
        }
        i = i + 1;
    }
    proof {
        assert(es@.take(es@.len() as int) =~= es@);
    }
}

/// Attributes of an element, by name, in the order they were first set.
pub struct Attrs {
    items: Vec<(String, String)>,
}

/// `name="value"` for each attribute, separated by single spaces.
pub open spec fn attrs_text(a: Seq<(Seq<char>, Seq<char>)>) -> Seq<char>
    decreases a.len(),
{
    if a.len() == 0 {
        Seq::empty()
    } else {
        let one = a.last().0 + "=\""@ + a.last().1 + "\""@;
        if a.len() == 1 {
            one
        } else {
            attrs_text(a.drop_last()) + " "@ + one
        }
    }
}

/// `a` with attribute `k` set to `v`: in place when `k` is set, else appended.
pub open spec fn attrs_insert(a: Seq<(Seq<char>, Seq<char>)>, k: Seq<char>, v: Seq<char>) -> Seq<
    (Seq<char>, Seq<char>),
> {
    if exists|j: int| 0 <= j < a.len() && #[trigger] a[j].0 == k {
        a.update(choose|j: int| 0 <= j < a.len() && #[trigger] a[j].0 == k, (k, v))
    } else {
        a.push((k, v))
    }
}

/// The attributes set from `items` in turn.
pub open spec fn attrs_from(items: Seq<(Seq<char>, Seq<char>)>) -> Seq<(Seq<char>, Seq<char>)>
    decreases items.len(),
{
    if items.len() == 0 {
        Seq::empty()
    } else {
        attrs_insert(attrs_from(items.drop_last()), items.last().0, items.last().1)
    }
}

/// No name is set twice.
pub open spec fn names_unique(a: Seq<(Seq<char>, Seq<char>)>) -> bool {
    forall|i: int, j: int| 0 <= i < j < a.len() ==> #[trigger] a[i].0 != #[trigger] a[j].0
}

proof fn lemma_attrs_insert_unique(a: Seq<(Seq<char>, Seq<char>)>, k: Seq<char>, v: Seq<char>)
    requires
        names_unique(a),
    ensures
        names_unique(attrs_insert(a, k, v)),
{
    let n = attrs_insert(a, k, v);
    if exists|j: int| 0 <= j < a.len() && #[trigger] a[j].0 == k {
        let c = choose|j: int| 0 <= j < a.len() && #[trigger] a[j].0 == k;
        assert forall|i: int, j: int| 0 <= i < j < n.len() implies #[trigger] n[i].0 != #[trigger] n[j].0 by {
            assert(n[i].0 == a[i].0 && n[j].0 == a[j].0);
        }
    } else {
        assert forall|i: int, j: int| 0 <= i < j < n.len() implies #[trigger] n[i].0 != #[trigger] n[j].0 by {
            if j == a.len() {
                assert(n[i] == a[i]);
            } else {
                assert(n[i] == a[i] && n[j] == a[j]);
            }
        }
    }
}

impl View for Attrs {
    type V = Seq<(Seq<char>, Seq<char>)>;

    closed spec fn view(&self) -> Seq<(Seq<char>, Seq<char>)> {
        self.items@.map_values(|p: (String, String)| (p.0@, p.1@))
    }
}

impl Attrs {
    pub open spec fn wf(&self) -> bool {
        names_unique(self@)
    }

    pub fn new() -> (r: Attrs)
        ensures
            r@ == Seq::<(Seq<char>, Seq<char>)>::empty(),
            r.wf(),
    {
        let r = Attrs { items: Vec::new() };
        assert(r@ =~= Seq::<(Seq<char>, Seq<char>)>::empty());
        r
    }

    /// Attributes set from `items` in turn; a later value of a name replaces an earlier one.
    pub fn from_items(items: Vec<(&str, &str)>) -> (r: Attrs)
        ensures
            r.wf(),
            r@ == attrs_from(items@.map_values(|p: (&str, &str)| (p.0@, p.1@))),
    {
        let ghost its = items@.map_values(|p: (&str, &str)| (p.0@, p.1@));
        let mut s = Attrs::new();
        let mut i: usize = 0;
        while i < items.len()
            invariant
                i <= items@.len(),
                its == items@.map_values(|p: (&str, &str)| (p.0@, p.1@)),
                s.wf(),
                s@ == attrs_from(its.take(i as int)),
            decreases items.len() - i,
        {
            proof {
                assert(its.take(i + 1).drop_last() =~= its.take(i as int));
            }
            let (k, v) = items[i];
            s.insert(k, v);
            i = i + 1;
        }
        proof {
            assert(its.take(items@.len() as int) =~= its);
        }
        s
    }

    /// Sets attribute `k` to `v`, in place when it is already set.
    pub fn insert(&mut self, k: &str, v: &str)
        requires
            old(self).wf(),
        ensures
            final(self).wf(),
            final(self)@ == attrs_insert(old(self)@, k@, v@),
    {
        proof {
            lemma_attrs_insert_unique(self@, k@, v@);
        }
        let mut i: usize = 0;
        while i < self.items.len()
            invariant
                self@ == old(self)@,
                self.wf(),
                i <= self@.len(),
                forall|j: int| 0 <= j < i ==> #[trigger] self@[j].0 != k@,
            decreases self.items.len() - i,
        {
            if text_eq(self.items[i].0.as_str(), k) {
                let ghost before = self@;
                proof {
                    assert(before[i as int].0 == k@);
                    let c = choose|j: int| 0 <= j < before.len() && #[trigger] before[j].0 == k@;
                    if c != i {
                        if c < i {
                            assert(self@[c].0 != k@);
                        } else {
                            assert(before[i as int].0 != before[c].0);
                        }
                    }
                }
                self.items.set(i, (String::from_str(k), String::from_str(v)));
                proof {
                    assert(self@ =~= before.update(i as int, (k@, v@)));
                }
                return ;
            }
            i = i + 1;
        }
        let ghost before = self@;
        self.items.push((String::from_str(k), String::from_str(v)));
        proof {
            assert(self@ =~= before.push((k@, v@)));
        }
    }

    /// The attributes as `name="value"` pairs separated by single spaces.
    pub fn to_string(&self) -> (r: String)
        ensures
            r@ == attrs_text(self@),
    {
        let mut out = String::new();
        let mut i: usize = 0;
        while i < self.items.len()
            invariant
                i <= self@.len(),
                out@ == attrs_text(self@.take(i as int)),
            decreases self.items.len() - i,
        {
            proof {
                assert(self@.take(i + 1).drop_last() =~= self@.take(i as int));
            }
            if i > 0 {
                out.append(" ");
            }
            out.append(self.items[i].0.as_str());
            out.append("=\"");
            out.append(self.items[i].1.as_str());
            out.append("\"");
            proof {
                assert(out@ =~= attrs_text(self@.take(i + 1)));
            }
            i = i + 1;
        }
        proof {
            assert(self@.take(self@.len() as int) =~= self@);
        }
        out
    }
}

/// The decimal digit `d`.
pub open spec fn digit_text(d: nat) -> Seq<char> {
    if d == 0 {
        "0"@
    } else if d == 1 {
        "1"@
    } else if d == 2 {
        "2"@
    } else if d == 3 {
        "3"@
    } else if d == 4 {
        "4"@
    } else if d == 5 {
        "5"@
    } else if d == 6 {
        "6"@
    } else if d == 7 {
        "7"@
    } else if d == 8 {
        "8"@
    } else {
        "9"@
    }
}

/// `n` written in decimal.
pub open spec fn dec_text(n: nat) -> Seq<char>
    decreases n,
{
    if n < 10 {
        digit_text(n)
    } else {
        dec_text(n / 10) + digit_text(n % 10)
    }
}

fn digit_str(d: u8) -> (r: &'static str)
    requires
        d < 10,
    ensures
        r@ == digit_text(d as nat),
{
    match d {
        0 => "0",
        1 => "1",
        2 => "2",
        3 => "3",
        4 => "4",
        5 => "5",
        6 => "6",
        7 => "7",
        8 => "8",
        _ => "9",
    }
}

fn dec_string(n: u8) -> (r: String)
    ensures
        r@ == dec_text(n as nat),
{
    let mut out = String::new();
    if n >= 100 {
        out.append(digit_str(n / 100));
        assert(dec_text((n / 10) as nat) == dec_text((n / 100) as nat) + digit_text(((n / 10) % 10) as nat));
    }
    if n >= 10 {
        out.append(digit_str((n / 10) % 10));
    }
    out.append(digit_str(n % 10));
    proof {
        if n >= 100 {
            let q = (n / 10) as nat;
            assert(q / 10 == (n / 100) as nat);
            assert(q % 10 == ((n / 10) % 10) as nat);
            assert(q >= 10);
            assert(dec_text(q) == dec_text(q / 10) + digit_text(q % 10));
            assert(dec_text(n as nat) == dec_text(q) + digit_text((n % 10) as nat));
            assert(dec_text(q / 10) == digit_text(q / 10));
            assert(dec_text(q) == digit_text((n / 100) as nat) + digit_text(((n / 10) % 10) as nat));
            assert(out@ =~= digit_text((n / 100) as nat) + digit_text(((n / 10) % 10) as nat) + digit_text((n % 10) as nat));
            assert(out@ == dec_text(n as nat));
        } else if n >= 10 {
            let q = (n / 10) as nat;
            assert(q < 10);
            assert(q % 10 == q);
            assert(dec_text(n as nat) == dec_text(q) + digit_text((n % 10) as nat));
            assert(out@ =~= digit_text(q) + digit_text((n % 10) as nat));
            assert(out@ == dec_text(n as nat));
        } else {
            assert(out@ =~= dec_text(n as nat));
        }
    }
    out
}

/// Bold text.
pub struct B {
    val: String,
    attrs: Attrs,
}

/// The markup of bold text `val` with attributes `a`.
pub open spec fn b_html(val: Seq<char>, a: Seq<(Seq<char>, Seq<char>)>) -> Seq<char> {
    "<b "@ + attrs_text(a) + ">"@ + val + "</b>"@
}

impl View for B {
    type V = (Seq<char>, Seq<(Seq<char>, Seq<char>)>);

    closed spec fn view(&self) -> (Seq<char>, Seq<(Seq<char>, Seq<char>)>) {
        (self.val@, self.attrs@)
    }
}

impl B {
    pub fn new(val: &str) -> (r: B)
        ensures
            r@ == (val@, Seq::<(Seq<char>, Seq<char>)>::empty()),
    {
        B { val: String::from_str(val), attrs: Attrs::new() }
    }

    pub fn set_attr(self, attrs: Attrs) -> (r: B)
        ensures
            r@ == (self@.0, attrs@),
    {
        B { val: self.val, attrs }
    }

    pub fn build(&self) -> (r: String)
        ensures
            r@ == b_html(self@.0, self@.1),
    {
        let mut out = String::from_str("<b ");
        out.append(self.attrs.to_string().as_str());
        out.append(">");
        out.append(self.val.as_str());
        out.append("</b>");
        out
    }

    pub fn as_box(self) -> (r: Element)
        ensures
            r@ == b_html(self@.0, self@.1),
    {
        Element::from_html(self.build())
    }
}

/// A drawing surface for charts.
pub struct Canvas {
    id: String,
}

impl Canvas {
    pub fn create(id: &str) -> (r: Element)
        ensures
            r@ == "<canvas id=\""@ + id@ + "\"></canvas>"@,
    {
        let mut out = String::from_str("<canvas id=\"");
        out.append(id);
        out.append("\"></canvas>");
        Element::from_html(out)
    }
}

/// A block holding other elements.
pub struct Div {
    class: String,
    elements: Vec<Element>,
}

impl View for Div {
    type V = (Seq<char>, Seq<Element>);

    closed spec fn view(&self) -> (Seq<char>, Seq<Element>) {
        (self.class@, self.elements@)
    }
}

/// The markup of a block of class `class` holding `es`.
pub open spec fn div_html(class: Seq<char>, es: Seq<Element>) -> Seq<char> {
    "<div class=\""@ + class + "\">"@ + concat_all(es) + "</div>"@
}

impl Div {
    pub fn new(class: &str) -> (r: Div)
        ensures
            r@ == (class@, Seq::<Element>::empty()),
    {
        Div { class: String::from_str(class), elements: Vec::new() }
    }

    pub fn new_container() -> (r: Div)
        ensures
            r@ == ("container"@, Seq::<Element>::empty()),
    {
        Div::new("container")
    }

    pub fn add_element(self, element: Element) -> (r: Div)
        ensures
            r@ == (self@.0, self@.1.push(element)),
    {
        let mut elements = self.elements;
        elements.push(element);
        Div { class: self.class, elements }
    }

    pub fn build(&self) -> (r: String)
        ensures
            r@ == div_html(self@.0, self@.1),
    {
        let mut out = String::from_str("<div class=\"");
        out.append(self.class.as_str());
        out.append("\">");
        append_all(&mut out, &self.elements);
        out.append("</div>");
        out
    }

    pub fn as_box(self) -> (r: Element)
        ensures
            r@ == div_html(self@.0, self@.1),
    {
        Element::from_html(self.build())
    }
}

/// A heading of level `size`.
pub struct H {
    val: String,
    size: u8,
    attrs: Attrs,
}

impl View for H {
    type V = (Seq<char>, u8, Seq<(Seq<char>, Seq<char>)>);

    closed spec fn view(&self) -> (Seq<char>, u8, Seq<(Seq<char>, Seq<char>)>) {
        (self.val@, self.size, self.attrs@)
    }
}

/// The markup of heading `val` of level `size` with attributes `a`.
pub open spec fn h_html(val: Seq<char>, size: u8, a: Seq<(Seq<char>, Seq<char>)>) -> Seq<char> {
    "<h"@ + dec_text(size as nat) + " "@ + attrs_text(a) + ">"@ + val + "</h"@ + dec_text(
        size as nat,
    ) + ">"@
}

impl H {
    pub fn new(val: &str, size: u8) -> (r: H)
        ensures
            r@ == (val@, size, Seq::<(Seq<char>, Seq<char>)>::empty()),
    {
        H { val: String::from_str(val), size, attrs: Attrs::new() }
    }

    pub fn set_attr(self, attrs: Attrs) -> (r: H)
        ensures
            r@ == (self@.0, self@.1, attrs@),
    {
        H { val: self.val, size: self.size, attrs }
    }

    pub fn build(&self) -> (r: String)
        ensures
            r@ == h_html(self@.0, self@.1, self@.2),
    {
        let size = dec_string(self.size);
        let mut out = String::from_str("<h");
        out.append(size.as_str());
        out.append(" ");
        out.append(self.attrs.to_string().as_str());
        out.append(">");
        out.append(self.val.as_str());
        out.append("</h");
        out.append(size.as_str());
        out.append(">");
        out
    }

    pub fn as_box(self) -> (r: Element)
        ensures
            r@ == h_html(self@.0, self@.1, self@.2),
    {
        Element::from_html(self.build())
    }
}

/// Italic text.
pub struct I {
    val: String,
}

impl I {
    pub fn create(val: &str) -> (r: Element)
        ensures
            r@ == "<i>"@ + val@ + "</i>"@,
    {
        let mut out = String::from_str("<i>");
        out.append(val);
        out.append("</i>");
        Element::from_html(out)
    }
}

/// Plain markup, as given.
pub struct S {
    val: String,
}

impl S {
    pub fn create(val: &str) -> (r: Element)
        ensures
            r@ == val@,
    {
        Element::from_html(String::from_str(val))
    }

    pub fn create_nbsp() -> (r: Element)
        ensures
            r@ == "&nbsp;"@,
    {
        S::create("&nbsp;")
    }
}

/// A script loaded from a URL.
pub struct Script {
    url: String,
}

impl Script {
    pub fn create(url: &str) -> (r: Element)
        ensures
            r@ == "<script src=\""@ + url@ + "\"></script>"@,
    {
        let mut out = String::from_str("<script src=\"");
        out.append(url);
        out.append("\"></script>");
        Element::from_html(out)
    }
}

/// An inline run of elements.
pub struct Span {
    elements: Vec<Element>,
}

impl Span {
    pub fn create(elements: Vec<Element>) -> (r: Element)
        ensures
            r@ == "<span>"@ + concat_all(elements@) + "</span>"@,
    {
        let mut out = String::from_str("<span>");
        append_all(&mut out, &elements);
        out.append("</span>");
        Element::from_html(out)
    }
}

/// A table cell.
pub struct Td {
    val: Element,
    attrs: Attrs,
}

impl View for Td {
    type V = (Seq<char>, Seq<(Seq<char>, Seq<char>)>);

    closed spec fn view(&self) -> (Seq<char>, Seq<(Seq<char>, Seq<char>)>) {
        (self.val@, self.attrs@)
    }
}

/// The markup of a cell holding `val` with attributes `a`.
pub open spec fn td_html(val: Seq<char>, a: Seq<(Seq<char>, Seq<char>)>) -> Seq<char> {
    "<td "@ + attrs_text(a) + ">"@ + val + "</td>"@
}

impl Td {
    pub fn new(val: Element) -> (r: Td)
        ensures
            r@ == (val@, Seq::<(Seq<char>, Seq<char>)>::empty()),
    {
        Td { val, attrs: Attrs::new() }
    }

    pub fn set_attrs(self, attrs: Attrs) -> (r: Td)
        ensures
            r@ == (self@.0, attrs@),
    {
        Td { val: self.val, attrs }
    }

    pub fn build(&self) -> (r: String)
        ensures
            r@ == td_html(self@.0, self@.1),
    {
        let mut out = String::from_str("<td ");
        out.append(self.attrs.to_string().as_str());
        out.append(">");
        out.append(self.val.build().as_str());
        out.append("</td>");
        out
    }
}

/// A table row.
pub struct Tr {
    items: Vec<Element>,
    attrs: Attrs,
}

impl View for Tr {
    type V = (Seq<Element>, Seq<(Seq<char>, Seq<char>)>);

    closed spec fn view(&self) -> (Seq<Element>, Seq<(Seq<char>, Seq<char>)>) {
        (self.items@, self.attrs@)
    }
}

/// The markup of a row of rendered cells `cells` with attributes `a`.
pub open spec fn tr_html(cells: Seq<Element>, a: Seq<(Seq<char>, Seq<char>)>) -> Seq<char> {
    "<tr "@ + attrs_text(a) + ">"@ + concat_all(cells) + "</tr>"@
}

impl Tr {
    pub fn new() -> (r: Tr)
        ensures
            r@ == (Seq::<Element>::empty(), Seq::<(Seq<char>, Seq<char>)>::empty()),
    {
        Tr { items: Vec::new(), attrs: Attrs::new() }
    }

    pub fn set_attrs(self, attrs: Attrs) -> (r: Tr)
        ensures
            r@ == (self@.0, attrs@),
    {
        Tr { items: self.items, attrs }
    }

    /// Appends cell `td`, rendered.
    pub fn add_td(self, td: Td) -> (r: Tr)
        ensures
            r@.1 == self@.1,
            r@.0.len() == self@.0.len() + 1,
            r@.0.drop_last() == self@.0,
            r@.0.last()@ == td_html(td@.0, td@.1),
    {
        let mut items = self.items;
        let ghost before = items@;
        items.push(Element::from_html(td.build()));
        proof {
            assert(items@.drop_last() =~= before);
        }
        Tr { items, attrs: self.attrs }
    }

    pub fn build(&self) -> (r: String)
        ensures
            r@ == tr_html(self@.0, self@.1),
    {
        let mut out = String::from_str("<tr ");
        out.append(self.attrs.to_string().as_str());
        out.append(">");
        append_all(&mut out, &self.items);
        out.append("</tr>");
        out
    }

    pub fn as_box(self) -> (r: Element)
        ensures
            r@ == tr_html(self@.0, self@.1),
    {
        Element::from_html(self.build())
    }
}

impl Default for Tr {
    fn default() -> (r: Tr)
        ensures
            r@ == (Seq::<Element>::empty(), Seq::<(Seq<char>, Seq<char>)>::empty()),
    {
        Tr::new()
    }
}

/// A table with a header, rows and a footer.
pub struct Table {
    header: Vec<String>,
    rows: Vec<Element>,
    footer: Vec<Element>,
}

impl View for Table {
    type V = (Seq<Seq<char>>, Seq<Element>, Seq<Element>);

    closed spec fn view(&self) -> (Seq<Seq<char>>, Seq<Element>, Seq<Element>) {
        (self.header@.map_values(|h: String| h@), self.rows@, self.footer@)
    }
}

/// `<th>h</th>` for each header cell `h`.
pub open spec fn header_html(hs: Seq<Seq<char>>) -> Seq<char>
    decreases hs.len(),
{
    if hs.len() == 0 {
        Seq::empty()
    } else {
        header_html(hs.drop_last()) + "<th>"@ + hs.last() + "</th>"@
    }
}

/// The markup of a table with header `hs`, rendered rows `rows` and footer `footer`.
pub open spec fn table_html(hs: Seq<Seq<char>>, rows: Seq<Element>, footer: Seq<Element>) -> Seq<char> {
    "<table class=\"table table-bordered table-hover\"><thead class=\"table-light\"><tr>"@
        + header_html(hs) + "</tr></thead><tbody>"@ + concat_all(rows) + "</tbody><tfoot>"@
        + concat_all(footer) + "</tfoot></table>"@
}

impl Table {
    pub fn new(header: Vec<String>) -> (r: Table)
        ensures
            r@ == (header@.map_values(|h: String| h@), Seq::<Element>::empty(), Seq::<
                Element,
            >::empty()),
    {
        Table { header, rows: Vec::new(), footer: Vec::new() }
    }

    /// Appends row `row`, rendered.
    pub fn add_row(&mut self, row: Tr)
        ensures
            final(self)@.0 == old(self)@.0,
            final(self)@.2 == old(self)@.2,
            final(self)@.1.len() == old(self)@.1.len() + 1,
            final(self)@.1.drop_last() == old(self)@.1,
            final(self)@.1.last()@ == tr_html(row@.0, row@.1),
    {
        let ghost before = self.rows@;
        self.rows.push(row.as_box());
        proof {
            assert(self.rows@.drop_last() =~= before);
        }
    }

    pub fn add_footer_element(&mut self, elem: Element)
        ensures
            final(self)@ == (old(self)@.0, old(self)@.1, old(self)@.2.push(elem)),
    {
        self.footer.push(elem);
    }

    pub fn build(&self) -> (r: String)
        ensures
            r@ == table_html(self@.0, self@.1, self@.2),
    {
        let ghost hs = self@.0;
        let mut out = String::from_str(
            "<table class=\"table table-bordered table-hover\"><thead class=\"table-light\"><tr>",
        );
        let ghost start = out@;
        let mut i: usize = 0;
        while i < self.header.len()
            invariant
                i <= self.header@.len(),
                hs == self.header@.map_values(|h: String| h@),
                out@ == start + header_html(hs.take(i as int)),
            decreases self.header.len() - i,
        {
            proof {
                assert(hs.take(i + 1).drop_last() =~= hs.take(i as int));
            }
            out.append("<th>");
            out.append(self.header[i].as_str());
            out.append("</th>");
            proof {
                assert(out@ =~= start + header_html(hs.take(i + 1)));
            }
            i = i + 1;
        }
        proof {
            assert(hs.take(self.header@.len() as int) =~= hs);
        }
        out.append("</tr></thead><tbody>");
        append_all(&mut out, &self.rows);
        out.append("</tbody><tfoot>");
        append_all(&mut out, &self.footer);
        out.append("</tfoot></table>");
        out
    }

    pub fn as_box(self) -> (r: Element)
        ensures
            r@ == table_html(self@.0, self@.1, self@.2),
    {
        Element::from_html(self.build())
    }
}

/// One collapsible item of an accordion.
pub struct AccordionItem {
    accordion_id: String,
    id: String,
    header: String,
    body: Element,
}

impl View for AccordionItem {
    type V = (Seq<char>, Seq<char>, Seq<char>, Seq<char>);

    closed spec fn view(&self) -> (Seq<char>, Seq<char>, Seq<char>, Seq<char>) {
        (self.accordion_id@, self.id@, self.header@, self.body@)
    }
}

/// The markup of an item `id` of accordion `acc` with header `header` and body `body`.
pub open spec fn accordion_item_html(acc: Seq<char>, id: Seq<char>, header: Seq<char>, body: Seq<char>) -> Seq<char> {
    "<div class=\"accordion-item\"><h2 class=\"accordion-header\"><button class=\"accordion-button\" type=\"button\" data-bs-toggle=\"collapse\" data-bs-target=\"#"@
        + id + "\" aria-expanded=\"false\" aria-controls=\""@ + id + "\"><b>"@ + header
        + "</b></button></h2><div id=\""@ + id
        + "\" class=\"accordion-collapse collapse\" data-bs-parent=\"#"@ + acc
        + "\"><div class=\"accordion-body\">"@ + body + "</div></div></div>"@
}

impl AccordionItem {
    pub fn new(id: &str, header: &str, body: Element) -> (r: AccordionItem)
        ensures
            r@ == (Seq::<char>::empty(), id@, header@, body@),
    {
        AccordionItem {
            accordion_id: String::new(),
            id: String::from_str(id),
            header: String::from_str(header),
            body,
        }
    }

    fn set_accordion_id(&mut self, id: &str)
        ensures
            final(self)@ == (id@, old(self)@.1, old(self)@.2, old(self)@.3),
    {
        self.accordion_id = String::from_str(id);
    }

    pub fn build(&self) -> (r: String)
        ensures
            r@ == accordion_item_html(self@.0, self@.1, self@.2, self@.3),
    {
        let mut out = String::from_str(
            "<div class=\"accordion-item\"><h2 class=\"accordion-header\"><button class=\"accordion-button\" type=\"button\" data-bs-toggle=\"collapse\" data-bs-target=\"#",
        );
        out.append(self.id.as_str());
        out.append("\" aria-expanded=\"false\" aria-controls=\"");
        out.append(self.id.as_str());
        out.append("\"><b>");
        out.append(self.header.as_str());
        out.append("</b></button></h2><div id=\"");
        out.append(self.id.as_str());
        out.append("\" class=\"accordion-collapse collapse\" data-bs-parent=\"#");
        out.append(self.accordion_id.as_str());
        out.append("\"><div class=\"accordion-body\">");
        out.append(self.body.build().as_str());
        out.append("</div></div></div>");
        out
    }
}

/// A group of collapsible items.
pub struct Accordion {
    id: String,
    items: Vec<Element>,
}

impl View for Accordion {
    type V = (Seq<char>, Seq<Element>);

    closed spec fn view(&self) -> (Seq<char>, Seq<Element>) {
        (self.id@, self.items@)
    }
}

/// The markup of accordion `id` holding rendered items `items`.
pub open spec fn accordion_html(id: Seq<char>, items: Seq<Element>) -> Seq<char> {
    "<div class=\"accordion\" id=\""@ + id + "\">"@ + concat_all(items) + "</div>"@
}

impl Accordion {
    pub fn new(id: &str) -> (r: Accordion)
        ensures
            r@ == (id@, Seq::<Element>::empty()),
    {
        Accordion { id: String::from_str(id), items: Vec::new() }
    }

    /// Appends `item`, bound to this accordion and rendered.
    pub fn add_item(&mut self, item: AccordionItem)
        ensures
            final(self)@.0 == old(self)@.0,
            final(self)@.1.len() == old(self)@.1.len() + 1,
            final(self)@.1.drop_last() == old(self)@.1,
            final(self)@.1.last()@ == accordion_item_html(old(self)@.0, item@.1, item@.2, item@.3),
    {
        let mut item = item;
        item.set_accordion_id(self.id.as_str());
        let ghost before = self.items@;
        self.items.push(Element::from_html(item.build()));
        proof {
            assert(self.items@.drop_last() =~= before);
        }
    }

    pub fn build(&self) -> (r: String)
        ensures
            r@ == accordion_html(self@.0, self@.1),
    {
        let mut out = String::from_str("<div class=\"accordion\" id=\"");
        out.append(self.id.as_str());
        out.append("\">");
        append_all(&mut out, &self.items);
        out.append("</div>");
        out
    }

    pub fn as_box(self) -> (r: Element)
        ensures
            r@ == accordion_html(self@.0, self@.1),
    {
        Element::from_html(self.build())
    }
}

/// A whole page: a title and the elements of its body.
pub struct Builder {
    title: String,
    elements: Vec<Element>,
}

impl View for Builder {
    type V = (Seq<char>, Seq<Element>);

    closed spec fn view(&self) -> (Seq<char>, Seq<Element>) {
        (self.title@, self.elements@)
    }
}

/// The markup of a page titled `title` whose body holds `es`.
pub open spec fn page_html(title: Seq<char>, es: Seq<Element>) -> Seq<char> {
    "<!doctype html><html lang=\"ru\"><head><meta charset=\"utf-8\"><title>"@ + title
        + "</title><link href=\""@ + CSS_BOOTSTRAP_URL@ + "\" rel=\"stylesheet\"></head><body>"@
        + concat_all(es) + "</body></html>"@
}

impl Builder {
    pub fn new(title: &str) -> (r: Builder)
        ensures
            r@ == (title@, Seq::<Element>::empty()),
    {
        Builder { title: String::from_str(title), elements: Vec::new() }
    }

    /// Appends `elements` to the body, in order.
    pub fn add(&mut self, elements: Vec<Element>)
        ensures
            final(self)@ == (old(self)@.0, old(self)@.1 + elements@),
    {
        let mut elements = elements;
        self.elements.append(&mut elements);
    }

    pub fn build(&self) -> (r: String)
        ensures
            r@ == page_html(self@.0, self@.1),
    {
        let mut out = String::from_str(
            "<!doctype html><html lang=\"ru\"><head><meta charset=\"utf-8\"><title>",
        );
        out.append(self.title.as_str());
        out.append("</title><link href=\"");
        out.append(CSS_BOOTSTRAP_URL);
        out.append("\" rel=\"stylesheet\"></head><body>");
        append_all(&mut out, &self.elements);
        out.append("</body></html>");
        out
    }
}

} // verus!
