use vstd::prelude::*;
use crate::filter::GraphFilter;
use crate::records::{Book, BookTechLink, Tech, find_book, find_tech, lookup_book, lookup_tech};
use crate::text::{decimal, decimal_text, lemma_decimal_injective, texts_view};

verus! {

/// A node handed to the graph widget. Ids are namespaced by kind:
/// `c_` for categories, `t_` for technologies, `b_` for books.
#[derive(Clone, Debug, PartialEq, Eq)]
pub struct Node {
    pub id: String,
    pub label: String,
    pub group: String,
    pub title: String,
    pub shape: String,
}

/// An edge between two node ids.
#[derive(Clone, Debug, PartialEq, Eq)]
pub struct Edge {
    pub from: String,
    pub to: String,
}

/// The nodes and edges of one projection.
#[derive(Clone, Debug, PartialEq, Eq)]
pub struct Graph {
    pub nodes: Vec<Node>,
    pub edges: Vec<Edge>,
}

/// What a node holds, as sequences of characters.
pub struct NodeView {
    pub id: Seq<char>,
    pub label: Seq<char>,
    pub group: Seq<char>,
    pub title: Seq<char>,
    pub shape: Seq<char>,
}

/// What an edge holds, as sequences of characters.
pub struct EdgeView {
    pub from: Seq<char>,
    pub to: Seq<char>,
}

impl View for Node {
    type V = NodeView;

    open spec fn view(&self) -> NodeView {
        NodeView {
            id: self.id@,
            label: self.label@,
            group: self.group@,
            title: self.title@,
            shape: self.shape@,
        }
    }
}

impl View for Edge {
    type V = EdgeView;

    open spec fn view(&self) -> EdgeView {
        EdgeView { from: self.from@, to: self.to@ }
    }
}

pub open spec fn nodes_view(nodes: Seq<Node>) -> Seq<NodeView> {
    nodes.map_values(|n: Node| n@)
}

pub open spec fn edges_view(edges: Seq<Edge>) -> Seq<EdgeView> {
    edges.map_values(|e: Edge| e@)
}

pub open spec fn category_key(c: Seq<char>) -> Seq<char> {
    "c_"@ + c
}

pub open spec fn tech_key(id: i32) -> Seq<char> {
    "t_"@ + decimal(id as int)
}

pub open spec fn book_key(id: i32) -> Seq<char> {
    "b_"@ + decimal(id as int)
}

/// The distinct categories of `techs`, in order of first appearance.
pub open spec fn categories_of(techs: Seq<Tech>) -> Seq<Seq<char>>
    decreases techs.len(),
{
    if techs.len() == 0 {
        Seq::empty()
    } else {
        let prev = categories_of(techs.drop_last());
        let c = techs.last().category@;
        if prev.contains(c) { prev } else { prev.push(c) }
    }
}

pub open spec fn category_node(c: Seq<char>) -> NodeView {
    NodeView {
        id: category_key(c),
        label: c,
        group: "Category"@,
        title: "<b>Category: "@ + c + "</b><br>Click to filter by this category"@,
        shape: "diamond"@,
    }
}

pub open spec fn tech_node(t: Tech, f: GraphFilter) -> NodeView {
    NodeView {
        id: tech_key(t.id),
        label: t.name@,
        group: if f.matches(t) { "TechnologyHighlighted"@ } else { "Technology"@ },
        title: "<b>"@ + t.name@ + "</b><br><i>"@ + t.subcategory@ + "</i><br>"@ + t.description@
            + "<br>Click to see related books"@,
        shape: "dot"@,
    }
}

pub open spec fn series_text(b: Book) -> Seq<char> {
    if b.series@.len() == 0 { "Standalone"@ } else { b.series@ }
}

pub open spec fn book_node(b: Book, highlighted: bool) -> NodeView {
    NodeView {
        id: book_key(b.id),
        label: b.title@,
        group: if highlighted { "BookHighlighted"@ } else { "Book"@ },
        title: "<b>"@ + b.title@ + "</b><br>by "@ + b.author@ + "<br>Series: "@ + series_text(b),
        shape: "box"@,
    }
}

pub open spec fn tech_edge(t: Tech) -> EdgeView {
    EdgeView { from: tech_key(t.id), to: category_key(t.category@) }
}

pub open spec fn book_edge(l: BookTechLink) -> EdgeView {
    EdgeView { from: book_key(l.book_id), to: tech_key(l.tech_id) }
}

/// A link counts only when both its book and its technology exist.
pub open spec fn resolves(books: Seq<Book>, techs: Seq<Tech>, l: BookTechLink) -> bool {
    lookup_book(books, l.book_id) is Some && lookup_tech(techs, l.tech_id) is Some
}

/// A book-to-technology edge is drawn when nothing is selected or its technology matches.
pub open spec fn edge_shown(techs: Seq<Tech>, f: GraphFilter, l: BookTechLink) -> bool {
    !f.is_active() || f.matches(lookup_tech(techs, l.tech_id)->0)
}

/// The ids of a sequence of books.
pub open spec fn book_ids(s: Seq<Book>) -> Seq<i32> {
    s.map_values(|b: Book| b.id)
}

/// The books of `books` with distinct ids, in order; where several share an id, the
/// first one stands for them.
pub open spec fn distinct_books(books: Seq<Book>) -> Seq<Book>
    decreases books.len(),
{
    if books.len() == 0 {
        Seq::empty()
    } else {
        let prev = distinct_books(books.drop_last());
        let b = books.last();
        if book_ids(prev).contains(b.id) { prev } else { prev.push(b) }
    }
}

/// A book is highlighted when one of its resolving links leads to a matching technology.
pub open spec fn book_highlighted(
    books: Seq<Book>,
    techs: Seq<Tech>,
    links: Seq<BookTechLink>,
    f: GraphFilter,
    id: i32,
) -> bool {
    exists|i: int|
        0 <= i < links.len() && links[i].book_id == id && #[trigger] resolves(books, techs, links[i])
            && f.matches(lookup_tech(techs, links[i].tech_id)->0)
}

/// The book-to-technology edges, one per resolving link whose edge is shown, in link order.
pub open spec fn book_edges(
    books: Seq<Book>,
    techs: Seq<Tech>,
    links: Seq<BookTechLink>,
    f: GraphFilter,
) -> Seq<EdgeView>
    decreases links.len(),
{
    if links.len() == 0 {
        Seq::empty()
    } else {
        let prev = book_edges(books, techs, links.drop_last(), f);
        let l = links.last();
        if resolves(books, techs, l) && edge_shown(techs, f, l) { prev.push(book_edge(l)) } else { prev }
    }
}

pub open spec fn category_nodes(techs: Seq<Tech>) -> Seq<NodeView> {
    categories_of(techs).map_values(|c: Seq<char>| category_node(c))
}

pub open spec fn tech_nodes(techs: Seq<Tech>, f: GraphFilter) -> Seq<NodeView> {
    techs.map_values(|t: Tech| tech_node(t, f))
}

pub open spec fn book_nodes(
    books: Seq<Book>,
    techs: Seq<Tech>,
    links: Seq<BookTechLink>,
    f: GraphFilter,
) -> Seq<NodeView> {
    distinct_books(books).map_values(|b: Book| book_node(b, book_highlighted(books, techs, links, f, b.id)))
}

/// The nodes of the projection: every category, then every technology, then every book.
pub open spec fn graph_nodes(
    books: Seq<Book>,
    techs: Seq<Tech>,
    links: Seq<BookTechLink>,
    f: GraphFilter,
) -> Seq<NodeView> {
    category_nodes(techs) + tech_nodes(techs, f) + book_nodes(books, techs, links, f)
}

/// The edges of the projection: each technology to its category, then the shown book edges.
pub open spec fn graph_edges(
    books: Seq<Book>,
    techs: Seq<Tech>,
    links: Seq<BookTechLink>,
    f: GraphFilter,
) -> Seq<EdgeView> {
    techs.map_values(|t: Tech| tech_edge(t)) + book_edges(books, techs, links, f)
}

fn category_id_text(c: &String) -> (r: String)
    ensures
        r@ == category_key(c@),
{
    let mut r = String::from_str("c_");
    r.append(c.as_str());
    r
}

fn tech_id_text(id: i32) -> (r: String)
    ensures
        r@ == tech_key(id),
{
    let digits = decimal_text(id as i64);
    let mut r = String::from_str("t_");
    r.append(digits.as_str());
    r
}

fn book_id_text(id: i32) -> (r: String)
    ensures
        r@ == book_key(id),
{
    let digits = decimal_text(id as i64);
    let mut r = String::from_str("b_");
    r.append(digits.as_str());
    r
}

fn make_category_node(c: &String) -> (r: Node)
    ensures
        r@ == category_node(c@),
{
    let mut title = String::from_str("<b>Category: ");
    title.append(c.as_str());
    title.append("</b><br>Click to filter by this category");
    let r = Node {
        id: category_id_text(c),
        label: c.clone(),
        group: String::from_str("Category"),
        title,
        shape: String::from_str("diamond"),
    };
    assert(r@.title =~= category_node(c@).title);
    r
}

fn make_tech_node(t: &Tech, f: &GraphFilter) -> (r: Node)
    ensures
        r@ == tech_node(*t, *f),
{
    let mut title = String::from_str("<b>");
    title.append(t.name.as_str());
    title.append("</b><br><i>");
    title.append(t.subcategory.as_str());
    title.append("</i><br>");
    title.append(t.description.as_str());
    title.append("<br>Click to see related books");
    let group = if f.tech_matches(t) {
        String::from_str("TechnologyHighlighted")
    } else {
        String::from_str("Technology")
    };
    let r = Node {
        id: tech_id_text(t.id),
        label: t.name.clone(),
        group,
        title,
        shape: String::from_str("dot"),
    };
    assert(r@.title =~= tech_node(*t, *f).title);
    r
}

fn make_book_node(b: &Book, highlighted: bool) -> (r: Node)
    ensures
        r@ == book_node(*b, highlighted),
{
    let mut title = String::from_str("<b>");
    title.append(b.title.as_str());
    title.append("</b><br>by ");
    title.append(b.author.as_str());
    title.append("<br>Series: ");
    if b.series.as_str().is_empty() {
        title.append("Standalone");
    } else {
        title.append(b.series.as_str());
    }
    let group = if highlighted {
        String::from_str("BookHighlighted")
    } else {
        String::from_str("Book")
    };
    let r = Node {
        id: book_id_text(b.id),
        label: b.title.clone(),
        group,
        title,
        shape: String::from_str("box"),
    };
    assert(r@.title =~= book_node(*b, highlighted).title);
    r
}

fn contains_text(v: &Vec<String>, s: &String) -> (r: bool)
    ensures
        r == texts_view(v@).contains(s@),
{
    let mut i: usize = 0;
    while i < v.len()
        invariant
            i <= v.len(),
            forall|j: int| 0 <= j < i ==> v@[j]@ != s@,
        decreases v.len() - i,
    {
        if v[i] == *s {
            assert(texts_view(v@)[i as int] == s@);
            return true;
        }
        i = i + 1;
    }
    proof {
        if texts_view(v@).contains(s@) {
            let j = choose|j: int| 0 <= j < texts_view(v@).len() && texts_view(v@)[j] == s@;
            assert(v@[j]@ == s@);
        }
    }
    false
}

fn contains_id(v: &Vec<i32>, id: i32) -> (r: bool)
    ensures
        r == v@.contains(id),
{
    let mut i: usize = 0;
    while i < v.len()
        invariant
            i <= v.len(),
            forall|j: int| 0 <= j < i ==> v@[j] != id,
        decreases v.len() - i,
    {
        if v[i] == id {
            return true;
        }
        i = i + 1;
    }
    false
}

/// The distinct categories of `techs`, in order of first appearance.
pub fn distinct_categories(techs: &Vec<Tech>) -> (r: Vec<String>)
    ensures
        texts_view(r@) == categories_of(techs@),
{
    let mut cats: Vec<String> = Vec::new();
    let mut i: usize = 0;
    while i < techs.len()
        invariant
            i <= techs.len(),
            texts_view(cats@) == categories_of(techs@.take(i as int)),
        decreases techs.len() - i,
    {
        assert(techs@.take(i + 1).drop_last() =~= techs@.take(i as int));
        if !contains_text(&cats, &techs[i].category) {
            let c = techs[i].category.clone();
            cats.push(c);
            assert(texts_view(cats@) =~= categories_of(techs@.take(i as int)).push(techs@[i as int].category@));
        }
        i = i + 1;
    }
    assert(techs@.take(i as int) =~= techs@);
    cats
}

/// Whether `id` names a book that some resolving link ties to a technology matching `filter`.
pub fn is_book_highlighted(
    books: &Vec<Book>,
    techs: &Vec<Tech>,
    links: &Vec<BookTechLink>,
    filter: &GraphFilter,
    id: i32,
) -> (r: bool)
    ensures
        r == book_highlighted(books@, techs@, links@, *filter, id),
{
    let mut i: usize = 0;
    while i < links.len()
        invariant
            i <= links.len(),
            forall|j: int|
                0 <= j < i ==> !(links@[j].book_id == id && #[trigger] resolves(books@, techs@, links@[j])
                    && filter.matches(lookup_tech(techs@, links@[j].tech_id)->0)),
        decreases links.len() - i,
    {
        let l = links[i];
        if l.book_id == id {
            let b = find_book(books, l.book_id);
            let t = find_tech(techs, l.tech_id);
            if let (Some(_), Some(ti)) = (b, t) {
                if filter.tech_matches(&techs[ti]) {
                    assert(resolves(books@, techs@, links@[i as int]));
                    return true;
                }
            }
        }
        i = i + 1;
    }
    false
}

/// Projects the three datasets onto the graph shown for `filter`.
///
/// The whole dataset is always shown: every distinct category becomes a category node,
/// every technology a node tied to its category, and every book a node, once per id
/// (the first book with an id stands for it), whether or not a link names it.
/// Highlighting marks the technologies that match the filter and the books linked to
/// one of them. A link whose book and technology both exist gives a book-to-technology
/// edge while nothing is selected, and only when its technology matches otherwise.
pub fn project(
    books: &Vec<Book>,
    techs: &Vec<Tech>,
    links: &Vec<BookTechLink>,
    filter: &GraphFilter,
) -> (g: Graph)
    ensures
        nodes_view(g.nodes@) == graph_nodes(books@, techs@, links@, *filter),
        edges_view(g.edges@) == graph_edges(books@, techs@, links@, *filter),
{
    let cats = distinct_categories(techs);
    let mut nodes: Vec<Node> = Vec::new();
    let mut j: usize = 0;
    while j < cats.len()
        invariant
            j <= cats.len(),
            texts_view(cats@) == categories_of(techs@),
            nodes.len() == j,
            forall|x: int| 0 <= x < j ==> nodes@[x]@ == category_node(#[trigger] cats@[x]@),
        decreases cats.len() - j,
    {
        nodes.push(make_category_node(&cats[j]));
        j = j + 1;
    }
    let ghost cnodes = nodes@;
    assert(nodes_view(cnodes) =~= category_nodes(techs@)) by {
        assert forall|x: int| 0 <= x < cnodes.len() implies nodes_view(cnodes)[x] == category_nodes(techs@)[x] by {
            assert(texts_view(cats@)[x] == cats@[x]@);
        }
    }

    let mut tnodes: Vec<Node> = Vec::new();
    let mut edges: Vec<Edge> = Vec::new();
    let mut i: usize = 0;
    while i < techs.len()
        invariant
            i <= techs.len(),
            tnodes.len() == i,
            edges.len() == i,
            forall|x: int| 0 <= x < i ==> tnodes@[x]@ == tech_node(#[trigger] techs@[x], *filter),
            forall|x: int| 0 <= x < i ==> edges@[x]@ == tech_edge(#[trigger] techs@[x]),
        decreases techs.len() - i,
    {
        let t = &techs[i];
        tnodes.push(make_tech_node(t, filter));
        edges.push(Edge { from: tech_id_text(t.id), to: category_id_text(&t.category) });
        i = i + 1;
    }
    assert(nodes_view(tnodes@) =~= tech_nodes(techs@, *filter));
    let ghost tedges = edges@;
    assert(edges_view(tedges) =~= techs@.map_values(|t: Tech| tech_edge(t)));

    let mut seen: Vec<i32> = Vec::new();
    let mut bnodes: Vec<Node> = Vec::new();
    let ghost mut db: Seq<Book> = Seq::empty();
    let mut i: usize = 0;
    while i < books.len()
        invariant
            i <= books.len(),
            db == distinct_books(books@.take(i as int)),
            seen@ == book_ids(db),
            bnodes.len() == db.len(),
            forall|x: int|
                0 <= x < db.len() ==> bnodes@[x]@ == book_node(
                    #[trigger] db[x],
                    book_highlighted(books@, techs@, links@, *filter, db[x].id),
                ),
        decreases books.len() - i,
    {
        let b = &books[i];
        assert(books@.take(i + 1).drop_last() =~= books@.take(i as int));
        assert(books@.take(i + 1).last() == books@[i as int]);
        if !contains_id(&seen, b.id) {
            let hl = is_book_highlighted(books, techs, links, filter, b.id);
            bnodes.push(make_book_node(b, hl));
            seen.push(b.id);
            proof {
                db = db.push(books@[i as int]);
            }
            assert(seen@ =~= book_ids(db));
        }
        i = i + 1;
    }
    assert(books@.take(i as int) =~= books@);
    assert(nodes_view(bnodes@) =~= book_nodes(books@, techs@, links@, *filter));

    let mut bedges: Vec<Edge> = Vec::new();
    let mut k: usize = 0;
    while k < links.len()
        invariant
            k <= links.len(),
            edges_view(bedges@) == book_edges(books@, techs@, links@.take(k as int), *filter),
        decreases links.len() - k,
    {
        let l = links[k];
        assert(links@.take(k + 1).drop_last() =~= links@.take(k as int));
        assert(links@.take(k + 1).last() == l);
        let b = find_book(books, l.book_id);
        let t = find_tech(techs, l.tech_id);
        if let (Some(_), Some(ti)) = (b, t) {
            if !filter.active() || filter.tech_matches(&techs[ti]) {
                let ghost before = bedges@;
                bedges.push(Edge { from: book_id_text(l.book_id), to: tech_id_text(l.tech_id) });
                assert(edges_view(bedges@) =~= edges_view(before).push(book_edge(l)));
            }
        }
        k = k + 1;
    }
    assert(links@.take(k as int) =~= links@);

    let ghost bn = bnodes@;
    let ghost tn = tnodes@;
    let ghost be = bedges@;
    nodes.append(&mut tnodes);
    nodes.append(&mut bnodes);
    edges.append(&mut bedges);
    assert(nodes@ == cnodes + tn + bn);
    assert(nodes_view(nodes@) =~= nodes_view(cnodes) + nodes_view(tn) + nodes_view(bn));
    assert(edges_view(edges@) =~= edges_view(tedges) + edges_view(be));
    Graph { nodes, edges }
}

pub open spec fn node_ids(nodes: Seq<NodeView>) -> Seq<Seq<char>> {
    nodes.map_values(|n: NodeView| n.id)
}

proof fn lemma_categories_cover(techs: Seq<Tech>)
    ensures
        forall|i: int| 0 <= i < techs.len() ==> categories_of(techs).contains(#[trigger] techs[i].category@),
    decreases techs.len(),
{
    if techs.len() > 0 {
        let prev = techs.drop_last();
        lemma_categories_cover(prev);
        let cs = categories_of(techs);
        assert forall|i: int| 0 <= i < techs.len() implies cs.contains(#[trigger] techs[i].category@) by {
            if i < techs.len() - 1 {
                assert(prev[i] == techs[i]);
                let k = choose|k: int| 0 <= k < categories_of(prev).len() && categories_of(prev)[k] == prev[i].category@;
                assert(cs[k] == categories_of(prev)[k]);
            } else if !categories_of(prev).contains(techs.last().category@) {
                assert(cs[cs.len() - 1] == techs.last().category@);
            }
        }
    }
}

proof fn lemma_distinct_books(books: Seq<Book>)
    ensures
        book_ids(distinct_books(books)).no_duplicates(),
        forall|i: int| 0 <= i < books.len() ==> book_ids(distinct_books(books)).contains(#[trigger] books[i].id),
    decreases books.len(),
{
    if books.len() > 0 {
        let prev = books.drop_last();
        lemma_distinct_books(prev);
        let ds = distinct_books(books);
        let ps = distinct_books(prev);
        if !book_ids(ps).contains(books.last().id) {
            assert(book_ids(ds) =~= book_ids(ps).push(books.last().id));
        }
        assert forall|i: int| 0 <= i < books.len() implies book_ids(ds).contains(#[trigger] books[i].id) by {
            if i < books.len() - 1 {
                assert(prev[i] == books[i]);
                let k = choose|k: int| 0 <= k < book_ids(ps).len() && book_ids(ps)[k] == prev[i].id;
                assert(book_ids(ds)[k] == book_ids(ps)[k]);
            } else if !book_ids(ps).contains(books.last().id) {
                assert(book_ids(ds)[book_ids(ds).len() - 1] == books.last().id);
            }
        }
    }
}

spec fn from_some_link(books: Seq<Book>, techs: Seq<Tech>, links: Seq<BookTechLink>, e: EdgeView) -> bool {
    exists|i: int| 0 <= i < links.len() && #[trigger] resolves(books, techs, links[i]) && e == book_edge(links[i])
}

proof fn lemma_book_edges_from_links(
    books: Seq<Book>,
    techs: Seq<Tech>,
    links: Seq<BookTechLink>,
    f: GraphFilter,
)
    ensures
        forall|x: int|
            0 <= x < book_edges(books, techs, links, f).len() ==> from_some_link(
                books,
                techs,
                links,
                #[trigger] book_edges(books, techs, links, f)[x],
            ),
    decreases links.len(),
{
    if links.len() > 0 {
        let prev = links.drop_last();
        lemma_book_edges_from_links(books, techs, prev, f);
        let es = book_edges(books, techs, links, f);
        let ps = book_edges(books, techs, prev, f);
        assert forall|x: int| 0 <= x < es.len() implies from_some_link(books, techs, links, #[trigger] es[x]) by {
            if x < ps.len() {
                assert(from_some_link(books, techs, prev, ps[x]));
                let i = choose|i: int| 0 <= i < prev.len() && #[trigger] resolves(books, techs, prev[i])
                    && ps[x] == book_edge(prev[i]);
                assert(prev[i] == links[i]);
                assert(es[x] == ps[x]);
            } else {
                let i = links.len() - 1;
                assert(resolves(books, techs, links[i]));
            }
        }
    }
}

/// Both ends of `e` are ids of nodes in `nodes`.
pub open spec fn has_endpoints(nodes: Seq<NodeView>, e: EdgeView) -> bool {
    node_ids(nodes).contains(e.from) && node_ids(nodes).contains(e.to)
}

/// Every edge of a projection joins two node ids of the same projection: none dangles.
pub proof fn lemma_no_dangling_edges(
    books: Seq<Book>,
    techs: Seq<Tech>,
    links: Seq<BookTechLink>,
    f: GraphFilter,
)
    ensures
        forall|x: int|
            0 <= x < graph_edges(books, techs, links, f).len() ==> has_endpoints(
                graph_nodes(books, techs, links, f),
                #[trigger] graph_edges(books, techs, links, f)[x],
            ),
{
    let ns = graph_nodes(books, techs, links, f);
    let es = graph_edges(books, techs, links, f);
    let ids = node_ids(ns);
    let cn = category_nodes(techs);
    let tn = tech_nodes(techs, f);
    let cats = categories_of(techs);
    lemma_categories_cover(techs);
    lemma_distinct_books(books);
    lemma_book_edges_from_links(books, techs, links, f);
    assert forall|x: int| 0 <= x < es.len() implies has_endpoints(ns, #[trigger] es[x]) by {
        if x < techs.len() {
            let t = techs[x];
            assert(ids[cn.len() + x] == tech_key(t.id));
            let k = choose|k: int| 0 <= k < cats.len() && cats[k] == t.category@;
            assert(ids[k] == category_key(t.category@));
        } else {
            let be = book_edges(books, techs, links, f);
            assert(es[x] == be[x - techs.len()]);
            assert(from_some_link(books, techs, links, be[x - techs.len()]));
            let i = choose|i: int| 0 <= i < links.len() && #[trigger] resolves(books, techs, links[i])
                && be[x - techs.len()] == book_edge(links[i]);
            let l = links[i];
            let db = distinct_books(books);
            crate::records::lemma_lookup_book_found(books, l.book_id);
            let b = lookup_book(books, l.book_id)->0;
            let m = choose|m: int| 0 <= m < books.len() && books[m] == b;
            assert(book_ids(db).contains(books[m].id));
            let k = choose|k: int| 0 <= k < book_ids(db).len() && book_ids(db)[k] == l.book_id;
            assert(ids[cn.len() + tn.len() + k] == book_key(l.book_id));
            crate::records::lemma_lookup_tech_found(techs, l.tech_id);
            let t = lookup_tech(techs, l.tech_id)->0;
            let m = choose|m: int| 0 <= m < techs.len() && techs[m] == t;
            assert(ids[cn.len() + m] == tech_key(l.tech_id));
        }
    }
}

/// The projection is a function of its inputs: two calls on the same datasets and the
/// same selection give the same nodes and the same edges.
pub proof fn lemma_projection_deterministic(
    books: Seq<Book>,
    techs: Seq<Tech>,
    links: Seq<BookTechLink>,
    f: GraphFilter,
    first: Graph,
    second: Graph,
)
    requires
        nodes_view(first.nodes@) == graph_nodes(books, techs, links, f),
        edges_view(first.edges@) == graph_edges(books, techs, links, f),
        nodes_view(second.nodes@) == graph_nodes(books, techs, links, f),
        edges_view(second.edges@) == graph_edges(books, techs, links, f),
    ensures
        nodes_view(first.nodes@) == nodes_view(second.nodes@),
        edges_view(first.edges@) == edges_view(second.edges@),
{
}

proof fn lemma_categories_distinct(techs: Seq<Tech>)
    ensures
        categories_of(techs).no_duplicates(),
    decreases techs.len(),
{
    if techs.len() > 0 {
        lemma_categories_distinct(techs.drop_last());
    }
}

/// Whether no two technologies share an id, as the datasets promise.
pub open spec fn tech_ids_unique(techs: Seq<Tech>) -> bool {
    forall|i: int, j: int|
        0 <= i < techs.len() && 0 <= j < techs.len() && #[trigger] techs[i].id == #[trigger] techs[j].id
            ==> i == j
}

/// Where technology ids are unique, no two nodes of a projection share an id: the
/// prefixes keep categories, technologies and books apart, categories and book ids are
/// listed once each, and distinct numbers have distinct decimal texts.
pub proof fn lemma_node_ids_unique(
    books: Seq<Book>,
    techs: Seq<Tech>,
    links: Seq<BookTechLink>,
    f: GraphFilter,
)
    requires
        tech_ids_unique(techs),
    ensures
        node_ids(graph_nodes(books, techs, links, f)).no_duplicates(),
{
    let ns = graph_nodes(books, techs, links, f);
    let ids = node_ids(ns);
    let cats = categories_of(techs);
    let db = distinct_books(books);
    let lb = book_ids(db);
    let nc = cats.len() as int;
    let nt = techs.len() as int;
    lemma_categories_distinct(techs);
    lemma_distinct_books(books);
    reveal_strlit("c_");
    reveal_strlit("t_");
    reveal_strlit("b_");
    assert forall|i: int, j: int| 0 <= i < ids.len() && 0 <= j < ids.len() && i != j implies ids[i] != ids[j] by {
        if ids[i] == ids[j] {
            if i < nc {
                assert(ids[i] == category_key(cats[i]));
                assert(ids[i][0] == 'c');
            } else if i < nc + nt {
                assert(ids[i] == tech_key(techs[i - nc].id));
                assert(ids[i][0] == 't');
            } else {
                assert(ids[i] == book_key(lb[i - nc - nt]));
                assert(ids[i][0] == 'b');
            }
            if j < nc {
                assert(ids[j] == category_key(cats[j]));
                assert(ids[j][0] == 'c');
            } else if j < nc + nt {
                assert(ids[j] == tech_key(techs[j - nc].id));
                assert(ids[j][0] == 't');
            } else {
                assert(ids[j] == book_key(lb[j - nc - nt]));
                assert(ids[j][0] == 'b');
            }
            if i < nc && j < nc {
                assert(cats[i] =~= ids[i].subrange(2, ids[i].len() as int));
                assert(cats[j] =~= ids[j].subrange(2, ids[j].len() as int));
            } else if nc <= i < nc + nt && nc <= j < nc + nt {
                assert(decimal(techs[i - nc].id as int) =~= ids[i].subrange(2, ids[i].len() as int));
                assert(decimal(techs[j - nc].id as int) =~= ids[j].subrange(2, ids[j].len() as int));
                lemma_decimal_injective(techs[i - nc].id as int, techs[j - nc].id as int);
            } else if i >= nc + nt && j >= nc + nt {
                let a = lb[i - nc - nt];
                let b = lb[j - nc - nt];
                assert(decimal(a as int) =~= ids[i].subrange(2, ids[i].len() as int));
                assert(decimal(b as int) =~= ids[j].subrange(2, ids[j].len() as int));
                lemma_decimal_injective(a as int, b as int);
            }
        }
    }
}

proof fn lemma_book_edges_cover_unfiltered(
    books: Seq<Book>,
    techs: Seq<Tech>,
    links: Seq<BookTechLink>,
    f: GraphFilter,
)
    requires
        !f.is_active(),
    ensures
        forall|i: int|
            0 <= i < links.len() && #[trigger] resolves(books, techs, links[i])
                ==> book_edges(books, techs, links, f).contains(book_edge(links[i])),
    decreases links.len(),
{
    if links.len() > 0 {
        let prev = links.drop_last();
        lemma_book_edges_cover_unfiltered(books, techs, prev, f);
        let es = book_edges(books, techs, links, f);
        let ps = book_edges(books, techs, prev, f);
        assert forall|i: int| 0 <= i < links.len() && #[trigger] resolves(books, techs, links[i])
            implies es.contains(book_edge(links[i])) by {
            if i < links.len() - 1 {
                assert(prev[i] == links[i]);
                assert(resolves(books, techs, prev[i]));
                let k = choose|k: int| 0 <= k < ps.len() && ps[k] == book_edge(prev[i]);
                assert(es[k] == ps[k]);
            } else {
                assert(es[es.len() - 1] == book_edge(links[i]));
            }
        }
    }
}

/// With nothing selected, no technology or book is highlighted, and every link whose
/// book and technology exist gives a book-to-technology edge.
pub proof fn lemma_unfiltered_graph(
    books: Seq<Book>,
    techs: Seq<Tech>,
    links: Seq<BookTechLink>,
    f: GraphFilter,
)
    requires
        !f.is_active(),
    ensures
        forall|i: int| 0 <= i < techs.len() ==> (#[trigger] tech_nodes(techs, f)[i]).group == "Technology"@,
        forall|k: int|
            0 <= k < book_nodes(books, techs, links, f).len() ==> (#[trigger] book_nodes(
                books,
                techs,
                links,
                f,
            )[k]).group == "Book"@,
        forall|i: int|
            0 <= i < links.len() && #[trigger] resolves(books, techs, links[i])
                ==> graph_edges(books, techs, links, f).contains(book_edge(links[i])),
{
    lemma_book_edges_cover_unfiltered(books, techs, links, f);
    let te = techs.map_values(|t: Tech| tech_edge(t));
    let be = book_edges(books, techs, links, f);
    assert forall|i: int| 0 <= i < links.len() && #[trigger] resolves(books, techs, links[i])
        implies graph_edges(books, techs, links, f).contains(book_edge(links[i])) by {
        let k = choose|k: int| 0 <= k < be.len() && be[k] == book_edge(links[i]);
        assert(graph_edges(books, techs, links, f)[te.len() + k] == be[k]);
    }
}

} // verus!
