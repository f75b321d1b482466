use graphql_parser::{parse_query, Style};

fn roundtrip_multiline_args(text: &str) {
    roundtrip(text, Style::default().multiline_arguments(true))
}

fn roundtrip_default(text: &str) {
    roundtrip(text, &Style::default())
}

fn roundtrip(text: &str, style: &Style) {
    let ast = parse_query(text).unwrap();
    assert_eq!(ast.format(style), text);
}

fn roundtrip2(source: &str, target: &str) {
    let ast = parse_query(source).unwrap();
    assert_eq!(ast.to_string(), target);
}

#[test]
fn minimal() {
    roundtrip_default("{\n  a\n}\n");
}

#[test]
fn minimal_query() {
    roundtrip_default("query {\n  a\n}\n");
}

#[test]
fn named_query() {
    roundtrip_default("query Foo {\n  field\n}\n");
}

#[test]
fn query_vars() {
    roundtrip_default("query Foo($arg: SomeType) {\n  field\n}\n");
}

#[test]
fn query_nameless_vars() {
    roundtrip_default(
        "query($first: Int, $second: Int) {\n  field1(first: $first)\n  field2(second: $second)\n}\n",
    );
}

#[test]
fn query_nameless_vars_multiple_fields() {
    roundtrip2(
        "query Foo($houseId: String!, $streetNumber: Int!) {\n  house(id: $houseId) {\n    id\n    name\n    lat\n    lng\n  }\n  street(number: $streetNumber) {\n    id\n  }\n  houseStreet(id: $houseId, number: $streetNumber) {\n    id\n  }\n}\n",
        "query Foo($houseId: String!, $streetNumber: Int!) {\n  house(id: $houseId) {\n    id\n    name\n    lat\n    lng\n  }\n  street(number: $streetNumber) {\n    id\n  }\n  houseStreet(id: $houseId, number: $streetNumber) {\n    id\n  }\n}\n",
    );
}

#[test]
fn query_var_defaults() {
    roundtrip_default("query Foo($site: Site = MOBILE) {\n  field\n}\n");
}

#[test]
fn query_var_defaults1() {
    roundtrip_default("query Foo($site: String = \"string\") {\n  field\n}\n");
}

#[test]
fn query_var_defaults2() {
    roundtrip_default("query Foo($site: Float = 0.5) {\n  field\n}\n");
}

#[test]
fn query_var_defaults3() {
    roundtrip_default("query Foo($site: [Int] = [123, 456]) {\n  field\n}\n");
}

#[test]
fn query_var_defaults4() {
    roundtrip_default("query Foo($site: Site = {url: null}) {\n  field\n}\n");
}

#[test]
fn query_aliases() {
    roundtrip_default("query {\n  an_alias: my_field\n}\n");
}

#[test]
fn query_arguments() {
    roundtrip_default("query {\n  node(id: 1)\n}\n");
}

#[test]
fn query_arguments_multiline() {
    roundtrip_multiline_args(
        "query {\n  node(\n    id: 1\n  )\n  node(\n    id: 1,\n    one: 3\n  )\n}\n",
    );
}

#[test]
fn query_directive() {
    roundtrip_default("query @skip(if: $foo) {\n  field\n}\n");
}

#[test]
fn mutation_directive() {
    roundtrip_default("mutation @skip(if: $foo) {\n  field\n}\n");
}

#[test]
fn mutation_nameless_vars() {
    roundtrip_default("mutation($first: Int) {\n  field1(first: $first)\n}\n");
}

#[test]
fn subscription_directive() {
    roundtrip_default("subscription @skip(if: $foo) {\n  field\n}\n");
}

#[test]
fn string_literal() {
    roundtrip_default("query {\n  node(id: \"hello\")\n}\n");
}

#[test]
fn triple_quoted_literal() {
    roundtrip_default(
        "query {\n  node(id: \"\"\"\n    Hello,\n      world!\n  \"\"\")\n}\n",
    );
}

#[test]
fn query_list_arg() {
    roundtrip_default("query {\n  node(id: 1, list: [123, 456])\n}\n");
}

#[test]
fn query_object_arg() {
    roundtrip_default("query {\n  node(id: 1, obj: {key1: 123, key2: 456})\n}\n");
}

#[test]
fn query_object_arg_multiline() {
    roundtrip_multiline_args(
        "query {\n  node(\n    id: 1,\n    obj: {\n      key1: 123,\n      key2: 456\n    }\n  )\n}\n",
    );
}

#[test]
fn query_array_arg_multiline() {
    roundtrip_multiline_args(
        "query {\n  node(\n    id: [\n      5,\n      6,\n      7\n    ]\n  )\n}\n",
    );
}

#[test]
fn nested_selection() {
    roundtrip_default("query {\n  node {\n    id\n  }\n}\n");
}

#[test]
fn inline_fragment() {
    roundtrip_default(
        "query {\n  node {\n    id\n    ... on User {\n      name\n    }\n  }\n}\n",
    );
}

#[test]
fn inline_fragment_dir() {
    roundtrip_default(
        "query {\n  node {\n    id\n    ... on User @defer {\n      name\n    }\n  }\n}\n",
    );
}

#[test]
fn fragment_spread() {
    roundtrip_default("query {\n  node {\n    id\n    ...something\n  }\n}\n");
}

#[test]
fn minimal_mutation() {
    roundtrip_default("mutation {\n  notify\n}\n");
}

#[test]
fn query_roundtrips_fragment() {
    roundtrip_default("fragment frag on Friend {\n  node\n}\n");
}

#[test]
fn directive_args() {
    roundtrip_default(
        "query {\n  node @dir(a: 1, b: \"2\", c: true, d: false, e: null)\n}\n",
    );
}

#[test]
fn directive_args_multiline() {
    roundtrip_multiline_args(
        "query {\n  node @dir(\n    a: 1,\n    b: \"2\",\n    c: true,\n    d: false,\n    e: null\n  )\n}\n",
    );
}

#[test]
fn kitchen_sink() {
    roundtrip2(
        "# a comment\nquery queryName($foo: ComplexType, $site: Site = MOBILE) {\n  whoever123is: node(id: [123, 456]) {\n    id ,\n    ... on User @defer {\n      field2 {\n        id ,\n        alias: field1(first:10, after:$foo,) @include(if: $foo) {\n          id,\n          ...frag\n        }\n      }\n    }\n    ... @skip(unless: $foo) {\n      id\n    }\n    ... {\n      id\n    }\n  }\n}\n\nmutation likeStory {\n  like(story: 123) @defer {\n    story {\n      id\n    }\n  }\n}\n\nsubscription StoryLikeSubscription($input: StoryLikeSubscribeInput) {\n  storyLikeSubscribe(input: $input) {\n    story {\n      likers {\n        count\n      }\n      likeSentence {\n        text\n      }\n    }\n  }\n}\n\nfragment frag on Friend {\n  foo(size: $size, bar: $b, obj: {key: \"value\", block: \"\"\"\n\n      block string uses \\\"\"\"\n\n  \"\"\"})\n}\n\n{\n  unnamed(truthy: true, falsey: false, nullish: null),\n  query\n}\n",
        "query queryName($foo: ComplexType, $site: Site = MOBILE) {\n  whoever123is: node(id: [123, 456]) {\n    id\n    ... on User @defer {\n      field2 {\n        id\n        alias: field1(first: 10, after: $foo) @include(if: $foo) {\n          id\n          ...frag\n        }\n      }\n    }\n    ... @skip(unless: $foo) {\n      id\n    }\n    ... {\n      id\n    }\n  }\n}\n\nmutation likeStory {\n  like(story: 123) @defer {\n    story {\n      id\n    }\n  }\n}\n\nsubscription StoryLikeSubscription($input: StoryLikeSubscribeInput) {\n  storyLikeSubscribe(input: $input) {\n    story {\n      likers {\n        count\n      }\n      likeSentence {\n        text\n      }\n    }\n  }\n}\n\nfragment frag on Friend {\n  foo(size: $size, bar: $b, obj: {block: \"block string uses \\\"\\\"\\\"\", key: \"value\"})\n}\n\n{\n  unnamed(truthy: true, falsey: false, nullish: null)\n  query\n}\n",
    );
}

#[test]
fn format_twice_gives_the_same_text() {
    let source = "query Q($a: Int = 1) @d { x: f(s: \"t\\u0001\", l: [1.5e+3, {b: A, a: $a}]) { ...F ... on T { g } } }\nfragment F on T { h }";
    let first = parse_query(source).unwrap().to_string();
    let second = parse_query(&first).unwrap().to_string();
    assert_eq!(first, second);
    let wide = parse_query(source)
        .unwrap()
        .format(Style::default().indent(4).multiline_arguments(true));
    let again = parse_query(&wide)
        .unwrap()
        .format(Style::default().indent(4).multiline_arguments(true));
    assert_eq!(wide, again);
    assert_eq!(
        wide,
        "query Q($a: Int = 1) @d {\n    x: f(\n        s: \"t\\u0001\",\n        l: [\n            1.5e+3,\n            {\n                a: $a,\n                b: A\n            }\n        ]\n    ) {\n        ...F\n        ... on T {\n            g\n        }\n    }\n}\n\nfragment F on T {\n    h\n}\n"
    );
}

#[test]
fn a_line_feed_at_the_end_of_a_string_is_lost() {
    let first = parse_query("{ a(s: \"t\\n\") }").unwrap().to_string();
    assert_eq!(first, "{\n  a(s: \"\"\"\n    t\n  \"\"\")\n}\n");
    let second = parse_query(&first).unwrap().to_string();
    assert_eq!(second, "{\n  a(s: \"t\")\n}\n");
}

#[test]
fn control_characters_in_strings_read_back() {
    let source = "{ a(s: \"x\\u001f\\b\\f\\u000by\") }";
    let first = parse_query(source).unwrap().to_string();
    assert_eq!(first, "{\n  a(s: \"x\\u001f\\u0008\\u000c\\u000by\")\n}\n");
    let again = parse_query(&first).unwrap();
    assert_eq!(again.to_string(), first);
    assert_eq!(parse_query(&again.to_string()).unwrap(), again);
}
