use graphql::types::definition::{Enum, EnumValue, Object, Schema};
use graphql::GraphQL;
use std::collections::HashMap;

fn setup_schema() -> Schema {
    let mut episode_enum_values = HashMap::new();
    episode_enum_values.insert(
        String::from("NEWHOPE"),
        EnumValue { value: 4, description: String::from("Released in 1977.") },
    );

    let episode_enum = Enum {
        name: String::from("Episode"),
        description: String::from("One of the films of the Star Wars trilogy."),
        values: episode_enum_values,
    };
    assert_eq!(episode_enum.values.len(), 1);

    Schema { query: Object { name: String::from("Query") } }
}

#[test]
fn basic_query() {
    let schema = setup_schema();
    let query = "
query HeroNameQuery {
    hero {
        name
    }
}
"
    .to_string();
    let expected = String::from("");
    let result = GraphQL::query(schema, query);
    assert_eq!(result, expected);
}
