use miru::files::markdown_files;

fn strings(v: &[&str]) -> Vec<String> {
    v.iter().map(|s| s.to_string()).collect()
}

#[test]
fn keeps_markdown_files_only() {
    let found = markdown_files(strings(&["./b.md", "./a.txt", "./notes", "./m/c.markdown", "./d.MD"]));
    assert_eq!(found, strings(&["./b.md", "./m/c.markdown"]));
}

#[test]
fn sorts_as_text() {
    let found = markdown_files(strings(&["./z.md", "./a.md", "./m/b.md"]));
    assert_eq!(found, strings(&["./a.md", "./m/b.md", "./z.md"]));
    // texts are compared: '.' comes before '/'
    let found = markdown_files(strings(&["./a/b.md", "./a.md"]));
    assert_eq!(found, strings(&["./a.md", "./a/b.md"]));
    let mut sorted = found.clone();
    sorted.sort();
    assert_eq!(found, sorted);
}

#[test]
fn empty_listing() {
    assert!(markdown_files(Vec::new()).is_empty());
}
