use curlgenerator::document::{
    Document, Location, NamedSchema, Operation, Parameter, PathEntry, PathItem, Schema,
};
use curlgenerator::statistics::{document_statistics, Statistics};

fn parameter(name: &str) -> Parameter {
    Parameter {
        name: name.to_string(),
        location: Location::Query,
        required: false,
        description: None,
        schema: None,
    }
}

#[test]
fn statistics_count_path_items_operations_parameters_and_schemas() {
    let document = Document {
        servers: vec![],
        paths: vec![
            PathEntry {
                template: "/a".to_string(),
                item: PathItem {
                    get: Some(Operation {
                        parameters: vec![parameter("x"), parameter("y")],
                        ..Default::default()
                    }),
                    trace: Some(Operation {
                        parameters: vec![parameter("z")],
                        ..Default::default()
                    }),
                    ..Default::default()
                },
            },
            PathEntry { template: "/b".to_string(), item: PathItem::default() },
            PathEntry {
                template: "/c".to_string(),
                item: PathItem { post: Some(Operation::default()), ..Default::default() },
            },
        ],
        components: vec![NamedSchema { name: "S".to_string(), schema: Schema::String }],
    };
    assert_eq!(
        document_statistics(&document),
        Statistics { path_items: 3, operations: 3, parameters: 3, schemas: 1 }
    );
    assert_eq!(
        document_statistics(&Document::default()),
        Statistics { path_items: 0, operations: 0, parameters: 0, schemas: 0 }
    );
}
