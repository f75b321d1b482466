use graphql_parser::minify_query;

#[test]
fn strip_ignored_characters() {
    let source = "
        query SomeQuery($foo: String!, $bar: String) {
            someField(foo: $foo, bar: $bar) {
                a
                b { 
                    ... on B {
                        c 
                        d 
                    } 
                } 
            } 
        }
        ";

    let minified = minify_query(source.to_string()).expect("minification failed");

    assert_eq!(
        &minified,
        "query SomeQuery($foo:String!$bar:String){someField(foo:$foo bar:$bar){a b{...on B{c d}}}}"
    );
}

#[test]
fn unexpected_token() {
    let source = "
        query foo {
            bar;
        }
        ";

    let minified = minify_query(source.to_string());

    assert_eq!(minified.is_err(), true);

    assert_eq!(
        minified.unwrap_err().to_string(),
        "query minify error: Unexpected `unexpected character ';'`"
    );
}

#[test]
fn minify_keeps_literals_apart() {
    assert_eq!(
        minify_query("{ a(x: 1, y: \"s\" z: 2.5 w: \"\"\"b\"\"\") }".to_string()).unwrap(),
        "{a(x:1 y:\"s\" z:2.5 w:\"\"\"b\"\"\")}"
    );
    assert_eq!(minify_query("  # only a comment".to_string()).unwrap(), "");
    assert_eq!(
        minify_query("[".repeat(51)).unwrap_err().to_string(),
        "query minify error: Recursion limit exceeded"
    );
}

fn tokens(source: &str) -> Vec<(graphql_parser::tokenizer::Kind, String)> {
    let mut stream = graphql_parser::tokenizer::TokenStream::new(source);
    let mut found = Vec::new();
    while let Ok(token) = stream.uncons() {
        found.push((token.kind, token.value.to_string()));
    }
    found
}

#[test]
fn a_minified_query_has_the_same_tokens() {
    for source in [
        "query Q($a: [Int!] = [1, -2.5e+3], $b: String = \"\") @d(s: \"x \\\" y\") {\n  a: b(t: \"\"\"\n  block \\\"\"\" here\n  \"\"\") { ...F ... on T { c } }\n}\n# end",
        "{ a ( x : 1 ) , b }",
        "",
        "a \"\" \"\" b ... ...",
    ] {
        let minified = minify_query(source.to_string()).unwrap();
        assert_eq!(tokens(&minified), tokens(source), "{:?}", source);
    }
}

#[test]
fn a_number_before_three_dots_is_not_kept_apart() {
    assert_eq!(minify_query("1 ...".to_string()).unwrap(), "1...");
    assert!(minify_query("1...".to_string()).is_err());
}
