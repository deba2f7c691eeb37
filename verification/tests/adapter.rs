use roca::errors::Errors;
use roca::template::builder::Builder;
use roca::template::elements::Vector;
use roca::template_builder::TemplateBuilder;
use roca::tree::{to_document, to_tree, Node};

fn sample_document() -> Builder {
    let mut d = Builder::new();
    d.put_str("tag1", "value1");
    d.put_str("tag2", "value2");
    let mut vec = Vector::new("SUNSTONE");
    vec.put_str("DEFAULT_VIEW", "cloud");
    vec.put_str("VIEWS", "cloud");
    d.put_vector(vec);
    d
}

#[test]
fn roundtrip_document_tree_document() {
    let d = sample_document();
    let tree = to_tree(&d);
    let d2 = to_document(&tree);
    assert_eq!(d.generate_onefmt(), d2.generate_onefmt());
    assert_eq!(d.generate_xml().unwrap(), d2.generate_xml().unwrap());
    assert_eq!(d2.get("tag1").unwrap(), "value1");
    assert_eq!(d2.get("tag2").unwrap(), "value2");
    let vec = d2.get_vector("SUNSTONE").unwrap();
    assert_eq!(vec.get_str("DEFAULT_VIEW").unwrap(), "cloud");
    assert_eq!(vec.get_str("VIEWS").unwrap(), "cloud");
}

#[test]
fn roundtrip_tree_document_tree() {
    let d = sample_document();
    let t1 = to_tree(&d);
    let t2 = to_tree(&to_document(&t1));
    let b1 = to_document(&t1);
    let b2 = to_document(&t2);
    assert_eq!(b1.generate_xml().unwrap(), b2.generate_xml().unwrap());
}

#[test]
fn tree_accessors_read_children() {
    let d = sample_document();
    let mut tree = to_tree(&d);
    tree.put_str("MEMORY", "32");
    assert_eq!(tree.get_str("tag1").unwrap(), "value1");
    assert_eq!(tree.get_i64("MEMORY").unwrap(), 32);
    assert!(matches!(tree.get_str("nope"), Err(Errors::NotFound(_))));
    assert!(matches!(
        tree.get_str("SUNSTONE"),
        Err(Errors::HasChilds(_))
    ));
    let vec = tree.get_vector("SUNSTONE").unwrap();
    assert_eq!(vec.get_str("VIEWS").unwrap(), "cloud");
    let all = tree.get_vectors("SUNSTONE");
    assert_eq!(all.len(), 1);
    assert_eq!(tree.get_vectors("missing").len(), 0);
}

#[test]
fn tree_mutation_appends_and_detaches() {
    let mut root = Node::leaf("TEMPLATE", "");
    root.put_str("A", "1");
    root.put_str("A", "2");
    let mut vec = Vector::new("G");
    vec.put_str("k", "v");
    root.put_vector(vec);
    assert!(root.rm("A").is_ok());
    assert!(matches!(root.get_str("A"), Err(Errors::NotFound(_))));
    assert!(matches!(root.rm("A"), Err(Errors::NotFound(_))));
    assert!(root.get_vector("G").is_ok());
}

#[test]
fn tree_get_vector_requires_exactly_one_match() {
    let mut root = Node::leaf("TEMPLATE", "");
    let mut v1 = Vector::new("X");
    v1.put_str("a", "1");
    let mut v2 = Vector::new("X");
    v2.put_str("b", "2");
    root.put_vector(v1);
    root.put_vector(v2);
    assert!(matches!(root.get_vector("X"), Err(Errors::HasChilds(_))));
    assert!(matches!(root.get_vector("Y"), Err(Errors::NotFound(_))));
    let mut tpl = TemplateBuilder::new();
    let mut w1 = Vector::new("X");
    w1.put_str("a", "1");
    let mut w2 = Vector::new("X");
    w2.put_str("b", "2");
    tpl.put_vector(w1);
    tpl.put_vector(w2);
    assert!(matches!(tpl.get_vector("X"), Err(Errors::HasChilds(_))));
    assert_eq!(tpl.get_vectors("X").len(), 2);
}

#[test]
fn text_content_concatenates_descendants() {
    let mut root = Node::leaf("R", "head ");
    root.put_str("a", "one ");
    root.put_str("b", "two");
    assert_eq!(root.text_content(), "head one two");
}

#[test]
fn template_builder_add_retrieve_pairs() {
    let mut tpl = TemplateBuilder::new();

    tpl.put_str("tag1", "value1");
    tpl.put_str("tag2", "value2");

    let tag1 = tpl.get_str("tag1");

    // retrieve first value
    assert!(tag1.is_ok());
    assert_eq!(tag1.unwrap(), "value1");
}

#[test]
fn template_builder_add_delete_pairs() {
    let mut tpl = TemplateBuilder::new();

    tpl.put_str("tag1", "value1");
    tpl.put_str("tag1", "value2");

    // remove all elements
    let _ = tpl.rm("tag1");

    let tag1 = tpl.get_str("tag1");
    println!("{:?}", tag1);
    assert!(tag1.is_err());

    tpl.put_str("tag1", "value3");
    let tag1 = tpl.get_str("tag1");
    assert_eq!(tag1.unwrap(), "value3");
}

#[test]
fn template_builder_add_delete_vector() {
    let mut tpl = TemplateBuilder::new();

    tpl.put_str("tag1", "value1");

    let mut vec = Vector::new("vec1");
    vec.put_str("key", "value");
    vec.put_str("key2", "value2");

    tpl.put_vector(vec);

    // retrieve vector
    let res = tpl.get_vector("vec1");
    assert!(res.is_ok());
    let vec1 = res.unwrap();

    // retrieve pair from vector
    let pair2 = vec1.get_str("key2");
    assert!(pair2.is_ok());
    assert_eq!(pair2.unwrap(), "value2");

    let pair1 = vec1.get_str("key");
    assert!(pair1.is_ok());
    assert_eq!(pair1.unwrap(), "value");

    let mut vec1 = vec1;

    // remove pair
    let _ = vec1.rm("key");
    let pair1 = vec1.get_str("key");
    assert!(pair1.is_err());

    // remove vector
    let _ = tpl.rm("vec1");
    let res = tpl.get_vector("vec1");
    assert!(res.is_err());
}

#[test]
fn permissions_read_from_tree() {
    let mut perms = Node::leaf("PERMISSIONS", "");
    perms.put_str("OWNER_U", "1");
    perms.put_str("OWNER_M", "1");
    perms.put_str("OWNER_A", "0");
    perms.put_str("GROUP_U", "1");
    perms.put_str("GROUP_M", "0");
    perms.put_str("GROUP_A", "0");
    perms.put_str("OTHER_U", "0");
    perms.put_str("OTHER_M", "0");
    perms.put_str("OTHER_A", "1");
    let mut root = Node::leaf("VM", "");
    root.children.push(perms);
    let p = root.permissions().unwrap();
    assert_eq!(p.render(), "um-u----a");
    assert_eq!(p.0, 0o641);
}

#[test]
fn permissions_missing_element() {
    let root = Node::leaf("VM", "");
    assert!(matches!(root.permissions(), Err(Errors::NotFound(_))));
}

#[test]
fn get_field_checks_range() {
    let mut perms = Node::leaf("PERMISSIONS", "");
    perms.put_str("OWNER_U", "2");
    perms.put_str("OWNER_M", "256");
    perms.put_str("OWNER_A", "x");
    assert_eq!(perms.get_field("OWNER_U").unwrap(), 2);
    assert!(matches!(
        perms.get_field("OWNER_M"),
        Err(Errors::ParseInt(_))
    ));
    assert!(matches!(
        perms.get_field("OWNER_A"),
        Err(Errors::ParseInt(_))
    ));
    assert!(matches!(
        perms.get_field("GROUP_U"),
        Err(Errors::NotFound(_))
    ));
}
