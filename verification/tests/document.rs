use roca::errors::Errors;
use roca::template::builder::Builder;
use roca::template::elements::Vector;

#[test]
fn builder_add_retrieve_pairs() {
    let mut tpl = Builder::new();

    tpl.put_str("tag1", "value1");
    tpl.put_str("tag2", "value2");

    let tag1 = tpl.get_str("tag1");

    // retrieve first value
    assert!(tag1.is_ok());
    assert_eq!(tag1.unwrap(), "value1");
}

#[test]
fn builder_add_delete_pairs() {
    let mut tpl = Builder::new();

    tpl.put_str("tag1", "value1");
    tpl.put_str("tag1", "value2");

    // remove all elements
    let _ = tpl.rm("tag1");

    let tag1 = tpl.get_str("tag1");
    println!("{:?}", tag1);
    assert!(tag1.is_err());

    tpl.put_str("tag1", "value3");
    let tag1 = tpl.get_str("tag1");
    assert_eq!(tag1.unwrap(), "value3");
}

#[test]
fn builder_add_delete_vector() {
    let mut tpl = Builder::new();

    tpl.put_str("tag1", "value1");

    let mut vec = Vector::new("vec1");
    vec.put_str("key", "value");
    vec.put_str("key2", "value2");

    tpl.put_vector(vec);

    // retrieve vector
    let res = tpl.get_vector("vec1");
    assert!(res.is_ok());
    let vec1 = res.unwrap();

    // retrieve pair from vector
    let pair2 = vec1.get_str("key2");
    assert!(pair2.is_ok());
    assert_eq!(pair2.unwrap(), "value2");

    let pair1 = vec1.get_str("key");
    assert!(pair1.is_ok());
    assert_eq!(pair1.unwrap(), "value");

    assert_eq!(
        tpl.generate_xml().unwrap(),
        "<?xml version=\"1.0\" encoding=\"UTF-8\"?>\n<TEMPLATE>\n  <tag1>value1</tag1>\n  <vec1>\n    <key>value</key>\n    <key2>value2</key2>\n  </vec1>\n</TEMPLATE>"
    );

    let mut vec1 = vec1;

    // remove pair
    let _ = vec1.rm("key");
    let pair1 = vec1.get_str("key");
    assert!(pair1.is_err());

    // remove vector
    let _ = tpl.rm("vec1");
    let res = tpl.get_vector("vec1");
    assert!(res.is_err());
}

#[test]
fn get_returns_first_match() {
    let mut tpl = Builder::new();
    tpl.put_str("k", "first");
    tpl.put_str("k", "second");
    assert_eq!(tpl.get("k").unwrap(), "first");
}

#[test]
fn get_vector_ambiguity_policy() {
    let mut tpl = Builder::new();
    let mut v1 = Vector::new("X");
    v1.put_str("a", "1");
    let mut v2 = Vector::new("X");
    v2.put_str("b", "2");
    tpl.put_vector(v1);
    tpl.put_vector(v2);
    assert!(matches!(tpl.get_vector("X"), Err(Errors::HasChilds(_))));
    assert!(matches!(tpl.get_vector("Y"), Err(Errors::NotFound(_))));
}

#[test]
fn removal_takes_all_matches_then_fails() {
    let mut tpl = Builder::new();
    tpl.put_str("tag1", "a");
    tpl.put_str("tag1", "b");
    tpl.put_str("tag2", "c");
    assert!(tpl.rm("tag1").is_ok());
    assert!(matches!(tpl.get("tag1"), Err(Errors::NotFound(_))));
    assert_eq!(tpl.get("tag2").unwrap(), "c");
    assert!(matches!(tpl.rm("tag1"), Err(Errors::NotFound(_))));
}

#[test]
fn get_i64_reads_integers() {
    let mut tpl = Builder::new();
    tpl.put_str("MEMORY", "32");
    tpl.put_str("NAME", "vm");
    assert_eq!(tpl.get_i64("MEMORY").unwrap(), 32);
    assert!(matches!(tpl.get_i64("NAME"), Err(Errors::ParseInt(_))));
    assert!(matches!(tpl.get_i64("CPU"), Err(Errors::NotFound(_))));
}

#[test]
fn vector_get_str_is_strict() {
    let mut v = Vector::new("V");
    v.put_str("a", "1");
    v.put_str("a", "2");
    v.put_str("b", "3");
    assert!(matches!(v.get_str("a"), Err(Errors::HasChilds(_))));
    assert_eq!(v.get_str("b").unwrap(), "3");
    assert!(matches!(v.get_str("c"), Err(Errors::NotFound(_))));
    assert_eq!(v.get_i64("b").unwrap(), 3);
}

#[test]
fn vector_add_pair_and_rm_pair() {
    let mut v = Vector::new("V");
    v.add_pair("a", "1");
    v.add_pair("a", "2");
    v.rm_pair("a");
    assert!(v.get_str("a").is_err());
    assert!(matches!(v.rm("a"), Err(Errors::NotFound(_))));
}

#[test]
fn render_onefmt_text() {
    let mut tpl = Builder::new();
    tpl.put_str("tag1", "value1");
    tpl.put_str("tag2", "value2");
    let mut vec = Vector::new("SUNSTONE");
    vec.put_str("DEFAULT_VIEW", "cloud");
    vec.put_str("VIEWS", "cloud");
    tpl.put_vector(vec);
    assert_eq!(
        tpl.generate_onefmt(),
        "tag1=\"value1\"\ntag2=\"value2\"\nSUNSTONE=[\nDEFAULT_VIEW=\"cloud\",\nVIEWS=\"cloud\" ]\n"
    );
}

#[test]
fn generate_xml_escapes_text() {
    let mut tpl = Builder::new();
    tpl.put_str("a", "x<&>\"'y");
    assert_eq!(
        tpl.generate_xml().unwrap(),
        "<?xml version=\"1.0\" encoding=\"UTF-8\"?>\n<TEMPLATE>\n  <a>x&lt;&amp;&gt;&quot;&apos;y</a>\n</TEMPLATE>"
    );
}

#[test]
fn generate_xml_empty_document() {
    let tpl = Builder::new();
    assert_eq!(
        tpl.generate_xml().unwrap(),
        "<?xml version=\"1.0\" encoding=\"UTF-8\"?>\n<TEMPLATE></TEMPLATE>"
    );
}
