use item_graph::filter::GraphFilter;
use item_graph::graph::{project, Edge, Graph, Node};
use item_graph::records::{Book, BookTechLink, Tech};

fn book(id: i32, title: &str, author: &str, series: &str) -> Book {
    Book { id, title: title.to_string(), author: author.to_string(), series: series.to_string() }
}

fn tech(id: i32, name: &str, category: &str, subcategory: &str, description: &str) -> Tech {
    Tech {
        id,
        name: name.to_string(),
        category: category.to_string(),
        subcategory: subcategory.to_string(),
        description: description.to_string(),
    }
}

fn link(book_id: i32, tech_id: i32) -> BookTechLink {
    BookTechLink { book_id, tech_id }
}

fn node<'a>(g: &'a Graph, id: &str) -> Option<&'a Node> {
    g.nodes.iter().find(|n| n.id == id)
}

fn has_edge(g: &Graph, from: &str, to: &str) -> bool {
    g.edges.iter().any(|e| e.from == from && e.to == to)
}

fn sorted_ids(g: &Graph) -> Vec<String> {
    let mut v: Vec<String> = g.nodes.iter().map(|n| n.id.clone()).collect();
    v.sort();
    v
}

fn sorted_edges(g: &Graph) -> Vec<(String, String)> {
    let mut v: Vec<(String, String)> = g.edges.iter().map(|e| (e.from.clone(), e.to.clone())).collect();
    v.sort();
    v
}

fn sample() -> (Vec<Book>, Vec<Tech>, Vec<BookTechLink>) {
    let books = vec![
        book(1, "Dune", "Herbert", ""),
        book(2, "Foundation", "Asimov", "Foundation"),
        book(3, "Neuromancer", "Gibson", "Sprawl"),
    ];
    let techs = vec![
        tech(10, "Stillsuit", "Survival", "Wearable", "desc"),
        tech(11, "Psychohistory", "Science", "Math", "predicts"),
        tech(12, "Cyberspace", "Computing", "Network", "matrix"),
        tech(13, "Shield", "Survival", "Defense", "blocks"),
    ];
    let links = vec![link(1, 10), link(2, 11), link(3, 12), link(1, 13), link(2, 13)];
    (books, techs, links)
}

#[test]
fn technology_filter_scenario() {
    let books = vec![book(1, "Dune", "Herbert", "")];
    let techs = vec![tech(10, "Stillsuit", "Survival", "Wearable", "desc")];
    let links = vec![link(1, 10)];
    let mut f = GraphFilter::none();
    f.select_technology(Some(10));
    let g = project(&books, &techs, &links, &f);
    let t = node(&g, "t_10").expect("technology node");
    assert_eq!(t.group, "TechnologyHighlighted");
    assert_eq!(t.label, "Stillsuit");
    assert_eq!(t.shape, "dot");
    assert_eq!(t.title, "<b>Stillsuit</b><br><i>Wearable</i><br>desc<br>Click to see related books");
    let b = node(&g, "b_1").expect("book node");
    assert_eq!(b.group, "BookHighlighted");
    assert_eq!(b.title, "<b>Dune</b><br>by Herbert<br>Series: Standalone");
    assert_eq!(b.shape, "box");
    assert!(has_edge(&g, "b_1", "t_10"));
    assert!(has_edge(&g, "t_10", "c_Survival"));
}

#[test]
fn unfiltered_graph_scenario() {
    let (books, techs, links) = sample();
    let g = project(&books, &techs, &links, &GraphFilter::none());
    let categories: Vec<&Node> = g.nodes.iter().filter(|n| n.group == "Category").collect();
    assert_eq!(categories.len(), 3);
    for c in &categories {
        assert_eq!(c.shape, "diamond");
    }
    let c = node(&g, "c_Survival").expect("category node");
    assert_eq!(c.label, "Survival");
    assert_eq!(c.title, "<b>Category: Survival</b><br>Click to filter by this category");
    for t in &techs {
        let n = node(&g, &format!("t_{}", t.id)).expect("technology node");
        assert_eq!(n.group, "Technology");
        assert!(has_edge(&g, &format!("t_{}", t.id), &format!("c_{}", t.category)));
    }
    for b in &books {
        let n = node(&g, &format!("b_{}", b.id)).expect("book node");
        assert_eq!(n.group, "Book");
    }
    for l in &links {
        assert!(has_edge(&g, &format!("b_{}", l.book_id), &format!("t_{}", l.tech_id)));
    }
    assert_eq!(g.nodes.len(), 3 + 4 + 3);
    assert_eq!(g.edges.len(), 4 + 5);
}

#[test]
fn category_filter_highlights_and_prunes_edges() {
    let (books, techs, links) = sample();
    let mut f = GraphFilter::none();
    f.select_category(Some("Survival".to_string()));
    let g = project(&books, &techs, &links, &f);
    assert_eq!(node(&g, "t_10").unwrap().group, "TechnologyHighlighted");
    assert_eq!(node(&g, "t_13").unwrap().group, "TechnologyHighlighted");
    assert_eq!(node(&g, "t_11").unwrap().group, "Technology");
    assert_eq!(node(&g, "b_1").unwrap().group, "BookHighlighted");
    assert_eq!(node(&g, "b_2").unwrap().group, "BookHighlighted");
    assert_eq!(node(&g, "b_3").unwrap().group, "Book");
    assert!(has_edge(&g, "b_1", "t_10"));
    assert!(has_edge(&g, "b_2", "t_13"));
    assert!(!has_edge(&g, "b_2", "t_11"));
    assert!(!has_edge(&g, "b_3", "t_12"));
    assert_eq!(g.nodes.len(), 10);
    assert_eq!(g.edges.len(), 4 + 3);
}

#[test]
fn book_highlighted_through_a_later_link() {
    let (books, techs, links) = sample();
    let mut f = GraphFilter::none();
    f.select_technology(Some(13));
    let g = project(&books, &techs, &links, &f);
    // Book 2 first appears through technology 11, and is linked to 13 later.
    assert_eq!(node(&g, "b_2").unwrap().group, "BookHighlighted");
    assert_eq!(node(&g, "b_3").unwrap().group, "Book");
}

#[test]
fn duplicate_links_give_one_book_node() {
    let (books, techs, _) = sample();
    let links = vec![link(1, 10), link(1, 10), link(1, 13)];
    let g = project(&books, &techs, &links, &GraphFilter::none());
    let count = g.nodes.iter().filter(|n| n.id == "b_1").count();
    assert_eq!(count, 1);
    assert_eq!(g.edges.iter().filter(|e| e.from == "b_1").count(), 3);
    assert_eq!(node(&g, "b_2").unwrap().group, "Book");
}

#[test]
fn links_to_missing_records_are_ignored() {
    let (books, techs, _) = sample();
    let links = vec![link(9, 10), link(1, 99)];
    let g = project(&books, &techs, &links, &GraphFilter::none());
    assert!(node(&g, "b_9").is_none());
    assert!(node(&g, "t_99").is_none());
    assert_eq!(node(&g, "b_1").unwrap().group, "Book");
    assert_eq!(g.nodes.len(), 3 + 4 + 3);
    assert_eq!(g.edges.len(), 4);
}

#[test]
fn empty_category_is_an_ordinary_category() {
    let techs = vec![tech(5, "Gadget", "", "x", "y"), tech(-7, "Gizmo", "", "x", "y")];
    let g = project(&vec![], &techs, &vec![], &GraphFilter::none());
    assert_eq!(g.nodes.len(), 3);
    assert!(node(&g, "c_").is_some());
    assert!(node(&g, "t_-7").is_some());
    assert!(has_edge(&g, "t_5", "c_"));
    let mut f = GraphFilter::none();
    f.select_category(Some(String::new()));
    let g = project(&vec![], &techs, &vec![], &f);
    assert_eq!(node(&g, "t_5").unwrap().group, "TechnologyHighlighted");
}

#[test]
fn empty_datasets_give_an_empty_graph() {
    let g = project(&vec![], &vec![], &vec![], &GraphFilter::none());
    assert!(g.nodes.is_empty());
    assert!(g.edges.is_empty());
}

#[test]
fn every_edge_has_both_nodes() {
    let (books, techs, mut links) = sample();
    links.push(link(4, 10));
    links.push(link(3, 50));
    for f in [GraphFilter::none(), GraphFilter { technology: Some(12), category: None }] {
        let g = project(&books, &techs, &links, &f);
        for Edge { from, to } in &g.edges {
            assert!(node(&g, from).is_some(), "dangling from {}", from);
            assert!(node(&g, to).is_some(), "dangling to {}", to);
        }
    }
}

#[test]
fn node_ids_are_unique() {
    let books = vec![book(10, "Ten", "A", "")];
    let techs = vec![tech(10, "Ten", "10", "s", "d")];
    let links = vec![link(10, 10)];
    let g = project(&books, &techs, &links, &GraphFilter::none());
    let ids = sorted_ids(&g);
    assert_eq!(ids, vec!["b_10".to_string(), "c_10".to_string(), "t_10".to_string()]);
}

#[test]
fn projection_is_deterministic() {
    let (books, techs, links) = sample();
    let f = GraphFilter { technology: None, category: Some("Science".to_string()) };
    let a = project(&books, &techs, &links, &f);
    let b = project(&books, &techs, &links, &f);
    assert_eq!(sorted_ids(&a), sorted_ids(&b));
    assert_eq!(sorted_edges(&a), sorted_edges(&b));
    assert_eq!(a, b);
}

#[test]
fn unlinked_book_is_shown_with_and_without_filter() {
    let books = vec![book(1, "Dune", "Herbert", ""), book(7, "Solaris", "Lem", "")];
    let techs = vec![tech(10, "Stillsuit", "Survival", "Wearable", "desc")];
    let links = vec![link(1, 10)];
    let g = project(&books, &techs, &links, &GraphFilter::none());
    let n = node(&g, "b_7").expect("unlinked book node");
    assert_eq!(n.group, "Book");
    assert_eq!(n.label, "Solaris");
    assert!(!g.edges.iter().any(|e| e.from == "b_7" || e.to == "b_7"));
    assert_eq!(g.nodes.len(), 1 + 1 + 2);

    let mut f = GraphFilter::none();
    f.select_technology(Some(10));
    let g = project(&books, &techs, &links, &f);
    assert_eq!(node(&g, "b_7").expect("unlinked book node").group, "Book");
    assert_eq!(node(&g, "b_1").unwrap().group, "BookHighlighted");
    assert_eq!(g.nodes.len(), 4);

    let lone = project(&vec![book(3, "Alone", "Nobody", "")], &vec![], &vec![], &f);
    assert_eq!(lone.nodes.len(), 1);
    assert_eq!(lone.nodes[0].id, "b_3");
    assert!(lone.edges.is_empty());
}

#[test]
fn first_book_with_an_id_stands_for_it() {
    let books = vec![book(4, "First", "A", ""), book(4, "Second", "B", "")];
    let g = project(&books, &vec![], &vec![], &GraphFilter::none());
    assert_eq!(g.nodes.len(), 1);
    assert_eq!(g.nodes[0].label, "First");
}
