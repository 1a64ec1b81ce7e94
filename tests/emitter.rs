use paperclip_openapi::emitter::EmittedUnit;
use paperclip_openapi::error::EmitError;
use paperclip_openapi::model::{
    Api, ApiParameter, HttpMethod, Operation, OperationMap, Response, Schema,
};
use paperclip_openapi::object::{ApiObject, OpRequirement, Parameter};
use paperclip_openapi::state::CodegenEmitter;
use paperclip_openapi::types::{matching_unit_type, DataType, DataTypeFormat};

fn scalar(t: DataType) -> Schema {
    let mut s = Schema::empty();
    s.data_type = Some(t);
    s
}

fn object(name: &str, props: Vec<(&str, usize)>, required: Vec<&str>) -> Schema {
    let mut s = Schema::empty();
    s.name = Some(name.to_string());
    s.data_type = Some(DataType::Object);
    s.properties = Some(props.into_iter().map(|(n, i)| (n.to_string(), i)).collect());
    s.required = required.into_iter().map(|r| r.to_string()).collect();
    s
}

fn param(name: &str, t: Option<DataType>, schema: Option<usize>, required: bool) -> ApiParameter {
    ApiParameter { name: name.to_string(), data_type: t, format: None, schema, required }
}

fn op(id: &str, params: Option<Vec<ApiParameter>>, responses: Vec<(&str, Option<usize>)>) -> Operation {
    Operation {
        operation_id: Some(id.to_string()),
        parameters: params,
        responses: responses
            .into_iter()
            .map(|(c, s)| (c.to_string(), Response { schema: s }))
            .collect(),
    }
}

fn find<'a>(e: &'a CodegenEmitter, key: &[&str]) -> Option<&'a ApiObject> {
    e.def_mods
        .iter()
        .find(|(k, _)| k.iter().map(|s| s.as_str()).collect::<Vec<_>>() == key)
        .map(|(_, o)| o)
}

fn reqs<'a>(o: &'a ApiObject, path: &str) -> Option<&'a Vec<(HttpMethod, OpRequirement)>> {
    o.paths.iter().find(|(p, _)| p == path).map(|(_, r)| r)
}

fn req<'a>(o: &'a ApiObject, path: &str, m: HttpMethod) -> Option<&'a OpRequirement> {
    reqs(o, path).and_then(|r| r.iter().find(|(mm, _)| *mm == m).map(|(_, q)| q))
}

fn names(ps: &[Parameter]) -> Vec<&str> {
    ps.iter().map(|p| p.name.as_str()).collect()
}

/// Pet { id: integer, name: string } at index 0; id required.
fn pet_schemas() -> Vec<Schema> {
    vec![
        object("Pet", vec![("id", 1), ("name", 2)], vec!["id"]),
        scalar(DataType::Integer),
        scalar(DataType::String),
    ]
}

#[test]
fn unit_type_format_wins() {
    assert_eq!(matching_unit_type(Some(DataTypeFormat::Int32), Some(DataType::Integer)), Some("i32"));
    assert_eq!(matching_unit_type(Some(DataTypeFormat::Int64), Some(DataType::String)), Some("i64"));
    assert_eq!(matching_unit_type(Some(DataTypeFormat::Float), Some(DataType::Number)), Some("f32"));
    assert_eq!(matching_unit_type(Some(DataTypeFormat::Double), None), Some("f64"));
}

#[test]
fn unit_type_by_kind() {
    assert_eq!(matching_unit_type(None, Some(DataType::Integer)), Some("i64"));
    assert_eq!(matching_unit_type(None, Some(DataType::Number)), Some("f64"));
    assert_eq!(matching_unit_type(None, Some(DataType::Boolean)), Some("bool"));
    assert_eq!(matching_unit_type(None, Some(DataType::String)), Some("String"));
    assert_eq!(matching_unit_type(Some(DataTypeFormat::Date), Some(DataType::String)), Some("String"));
}

#[test]
fn unit_type_no_match() {
    assert_eq!(matching_unit_type(None, Some(DataType::Array)), None);
    assert_eq!(matching_unit_type(None, Some(DataType::Object)), None);
    assert_eq!(matching_unit_type(None, None), None);
    assert_eq!(matching_unit_type(Some(DataTypeFormat::Byte), None), None);
}

#[test]
fn known_type_of_unit() {
    assert_eq!(EmittedUnit::Known("Vec<i64>".to_string()).known_type(), "Vec<i64>");
}

#[test]
fn pet_get_attaches_to_response() {
    let api = Api {
        schemas: pet_schemas(),
        definitions: vec![("Pet".to_string(), 0)],
        paths: vec![(
            "/pets/{id}".to_string(),
            OperationMap {
                parameters: None,
                methods: vec![(HttpMethod::Get, op("getPet", None, vec![("200", Some(0))]))],
            },
        )],
    };
    let mut e = CodegenEmitter::new('.');
    assert!(e.generate(&api).is_ok());
    let pet = find(&e, &["pet"]).expect("Pet declared");
    assert_eq!(pet.name, "Pet");
    assert_eq!(pet.path, "pet");
    assert_eq!(pet.fields.len(), 2);
    assert_eq!(pet.fields[0].name, "id");
    assert_eq!(pet.fields[0].ty_path, "i64");
    assert!(pet.fields[0].is_required);
    assert_eq!(pet.fields[1].name, "name");
    assert_eq!(pet.fields[1].ty_path, "String");
    assert!(!pet.fields[1].is_required);
    assert!(pet.fields.iter().all(|f| f.rename.is_none() && !f.boxed));
    let r = req(pet, "/pets/{id}", HttpMethod::Get).expect("requirement under get");
    assert!(!r.body_required);
    assert!(r.params.is_empty());
    assert_eq!(r.id.as_deref(), Some("getPet"));
}

#[test]
fn self_referential_node_is_boxed() {
    let mut node = object("Node", vec![("id", 1), ("next", 0)], vec![]);
    node.cyclic = true;
    let api = Api {
        schemas: vec![node, scalar(DataType::Integer)],
        definitions: vec![("Node".to_string(), 0)],
        paths: vec![],
    };
    let mut e = CodegenEmitter::new('.');
    assert!(e.generate(&api).is_ok());
    let n = find(&e, &["node"]).expect("Node declared");
    assert_eq!(n.name, "Node");
    assert_eq!(n.fields[0].name, "id");
    assert!(!n.fields[0].boxed);
    assert_eq!(n.fields[1].name, "next");
    assert!(n.fields[1].boxed);
    assert_eq!(n.fields[1].ty_path, "crate::node::Node");
}

#[test]
fn two_node_cycle_boxes_closing_edge() {
    // A.b -> B, B.a -> A, with A marked as closing the cycle.
    let mut a = object("A", vec![("b", 1)], vec![]);
    a.cyclic = true;
    let b = object("B", vec![("a", 0)], vec![]);
    let api = Api {
        schemas: vec![a, b],
        definitions: vec![("A".to_string(), 0), ("B".to_string(), 1)],
        paths: vec![],
    };
    let mut e = CodegenEmitter::new('.');
    assert!(e.generate(&api).is_ok());
    assert!(!find(&e, &["a"]).unwrap().fields[0].boxed);
    assert!(find(&e, &["b"]).unwrap().fields[0].boxed);
}

#[test]
fn reserved_property_gets_suffix_and_rename() {
    let api = Api {
        schemas: vec![object("Thing", vec![("type", 1)], vec![]), scalar(DataType::String)],
        definitions: vec![("Thing".to_string(), 0)],
        paths: vec![],
    };
    let mut e = CodegenEmitter::new('.');
    assert!(e.generate(&api).is_ok());
    let f = &find(&e, &["thing"]).unwrap().fields[0];
    assert_eq!(f.name, "type_");
    assert_eq!(f.rename.as_deref(), Some("type"));
}

#[test]
fn valid_identifier_has_no_rename() {
    let api = Api {
        schemas: vec![
            object("Thing", vec![("name", 1), ("petName", 1)], vec![]),
            scalar(DataType::String),
        ],
        definitions: vec![("Thing".to_string(), 0)],
        paths: vec![],
    };
    let mut e = CodegenEmitter::new('.');
    assert!(e.generate(&api).is_ok());
    let t = find(&e, &["thing"]).unwrap();
    assert_eq!(t.fields[0].name, "name");
    assert!(t.fields[0].rename.is_none());
    assert_eq!(t.fields[1].name, "pet_name");
    assert_eq!(t.fields[1].rename.as_deref(), Some("petName"));
}

#[test]
fn emission_is_repeatable() {
    let api = Api {
        schemas: pet_schemas(),
        definitions: vec![("Pet".to_string(), 0)],
        paths: vec![],
    };
    let mut e1 = CodegenEmitter::new('.');
    let mut e2 = CodegenEmitter::new('.');
    assert!(e1.generate(&api).is_ok());
    assert!(e2.generate(&api).is_ok());
    assert_eq!(e1.def_mods.len(), e2.def_mods.len());
    for ((k1, o1), (k2, o2)) in e1.def_mods.iter().zip(e2.def_mods.iter()) {
        assert_eq!(k1, k2);
        assert_eq!(o1.name, o2.name);
        assert_eq!(o1.path, o2.path);
        assert_eq!(o1.fields.len(), o2.fields.len());
        for (f1, f2) in o1.fields.iter().zip(o2.fields.iter()) {
            assert_eq!((&f1.name, &f1.rename, &f1.ty_path, f1.is_required, f1.boxed),
                       (&f2.name, &f2.rename, &f2.ty_path, f2.is_required, f2.boxed));
        }
    }
}

#[test]
fn namespaced_definition_location() {
    let api = Api {
        schemas: vec![
            object("io.k8s.PodSpec", vec![("items", 1)], vec![]),
            {
                let mut s = scalar(DataType::Array);
                s.items = Some(2);
                s
            },
            scalar(DataType::Integer),
        ],
        definitions: vec![("io.k8s.PodSpec".to_string(), 0)],
        paths: vec![],
    };
    let mut e = CodegenEmitter::new('.');
    assert!(e.generate(&api).is_ok());
    let o = find(&e, &["io", "k8s", "pod_spec"]).expect("declared at io/k8s/pod_spec");
    assert_eq!(o.name, "PodSpec");
    assert_eq!(o.path, "io::k8s::pod_spec");
    assert_eq!(o.fields[0].ty_path, "Vec<i64>");
    let mut pairs: Vec<(Vec<String>, String)> = e.mod_children.clone();
    pairs.sort();
    assert_eq!(
        pairs,
        vec![
            (vec!["io".to_string()], "k8s".to_string()),
            (vec!["io".to_string(), "k8s".to_string()], "pod_spec".to_string()),
        ]
    );
}

#[test]
fn reference_path_and_map_types() {
    let mut map = scalar(DataType::Object);
    map.additional_properties = Some(2);
    let api = Api {
        schemas: vec![
            object("Owner", vec![("pet", 3), ("tags", 1)], vec![]),
            map,
            scalar(DataType::String),
            object("a.Pet", vec![], vec![]),
        ],
        definitions: vec![("Owner".to_string(), 0)],
        paths: vec![],
    };
    let mut e = CodegenEmitter::new('.');
    assert!(e.generate(&api).is_ok());
    let o = find(&e, &["owner"]).unwrap();
    assert_eq!(o.fields[0].ty_path, "crate::a::pet::Pet");
    assert_eq!(o.fields[1].ty_path, "std::collections::BTreeMap<String, String>");
}

#[test]
fn pure_map_and_scalar_definitions_declare_nothing() {
    let mut map = scalar(DataType::Object);
    map.name = Some("Labels".to_string());
    map.additional_properties = Some(1);
    let mut s = scalar(DataType::String);
    s.name = Some("Text".to_string());
    let api = Api {
        schemas: vec![map, s],
        definitions: vec![("Labels".to_string(), 0), ("Text".to_string(), 1)],
        paths: vec![],
    };
    let mut e = CodegenEmitter::new('.');
    assert!(e.generate(&api).is_ok());
    assert!(e.def_mods.is_empty());
    assert!(e.mod_children.is_empty());
}

fn pets_api(path_params: Option<Vec<ApiParameter>>, get: Operation) -> Api {
    Api {
        schemas: pet_schemas(),
        definitions: vec![("Pet".to_string(), 0)],
        paths: vec![(
            "/pets".to_string(),
            OperationMap { parameters: path_params, methods: vec![(HttpMethod::Get, get)] },
        )],
    }
}

#[test]
fn shared_and_local_parameters_merge() {
    let api = pets_api(
        Some(vec![param("p1", Some(DataType::String), None, true)]),
        op("listPets", Some(vec![param("p2", Some(DataType::Integer), None, false)]), vec![("200", Some(0))]),
    );
    let mut e = CodegenEmitter::new('.');
    assert!(e.generate(&api).is_ok());
    let r = req(find(&e, &["pet"]).unwrap(), "/pets", HttpMethod::Get).unwrap();
    assert_eq!(names(&r.params), vec!["p2", "p1"]);
    assert_eq!(r.params[0].ty_path, "i64");
    assert_eq!(r.params[1].ty_path, "String");
}

#[test]
fn local_parameter_overrides_shared() {
    let api = pets_api(
        Some(vec![param("p1", Some(DataType::String), None, true)]),
        op("listPets", Some(vec![param("p1", Some(DataType::Integer), None, false)]), vec![("200", Some(0))]),
    );
    let mut e = CodegenEmitter::new('.');
    assert!(e.generate(&api).is_ok());
    let r = req(find(&e, &["pet"]).unwrap(), "/pets", HttpMethod::Get).unwrap();
    assert_eq!(names(&r.params), vec!["p1"]);
    assert_eq!(r.params[0].ty_path, "i64");
    assert!(!r.params[0].required);
}

#[test]
fn shared_parameters_used_without_local_list() {
    let api = pets_api(
        Some(vec![param("limit", Some(DataType::Integer), None, false)]),
        op("listPets", None, vec![("200", Some(0))]),
    );
    let mut e = CodegenEmitter::new('.');
    assert!(e.generate(&api).is_ok());
    let r = req(find(&e, &["pet"]).unwrap(), "/pets", HttpMethod::Get).unwrap();
    assert_eq!(names(&r.params), vec!["limit"]);
}

#[test]
fn body_parameter_attaches_with_body_required() {
    let api = Api {
        schemas: pet_schemas(),
        definitions: vec![("Pet".to_string(), 0)],
        paths: vec![(
            "/pets".to_string(),
            OperationMap {
                parameters: None,
                methods: vec![(
                    HttpMethod::Post,
                    op(
                        "addPet",
                        Some(vec![param("body", None, Some(0), true), param("dry", Some(DataType::Boolean), None, false)]),
                        vec![("201", None)],
                    ),
                )],
            },
        )],
    };
    let mut e = CodegenEmitter::new('.');
    assert!(e.generate(&api).is_ok());
    let r = req(find(&e, &["pet"]).unwrap(), "/pets", HttpMethod::Post).unwrap();
    assert!(r.body_required);
    assert_eq!(names(&r.params), vec!["dry"]);
    assert_eq!(r.id.as_deref(), Some("addPet"));
}

#[test]
fn operation_without_body_or_response_schema_is_absent() {
    let api = pets_api(None, op("ping", None, vec![("200", None), ("404", Some(0))]));
    let mut e = CodegenEmitter::new('.');
    assert!(e.generate(&api).is_ok());
    assert!(find(&e, &["pet"]).unwrap().paths.is_empty());
}

#[test]
fn first_fitting_success_response_wins() {
    let mut other = scalar(DataType::Object);
    other.name = Some("Unknown".to_string());
    let mut schemas = pet_schemas();
    schemas.push(other);
    let api = Api {
        schemas,
        definitions: vec![("Pet".to_string(), 0)],
        paths: vec![(
            "/pets".to_string(),
            OperationMap {
                parameters: None,
                methods: vec![(HttpMethod::Get, op("getPet", None, vec![("default", Some(0)), ("201", Some(3)), ("200", Some(0))]))],
            },
        )],
    };
    let mut e = CodegenEmitter::new('.');
    assert!(e.generate(&api).is_ok());
    let r = req(find(&e, &["pet"]).unwrap(), "/pets", HttpMethod::Get).unwrap();
    assert!(!r.body_required);
}

#[test]
fn error_invalid_definition_name() {
    let mut s = object("X", vec![], vec![]);
    s.name = None;
    let api = Api { schemas: vec![s], definitions: vec![("X".to_string(), 0)], paths: vec![] };
    let mut e = CodegenEmitter::new('.');
    assert!(matches!(e.generate(&api), Err(EmitError::InvalidDefinitionName)));
}

#[test]
fn error_invalid_definition_path() {
    let api = Api {
        schemas: vec![object(".", vec![], vec![])],
        definitions: vec![(".".to_string(), 0)],
        paths: vec![],
    };
    let mut e = CodegenEmitter::new('.');
    match e.generate(&api) {
        Err(EmitError::InvalidDefinitionPath(p)) => assert_eq!(p, "::"),
        _ => panic!("expected InvalidDefinitionPath"),
    }
    assert!(e.def_mods.is_empty());
}

#[test]
fn empty_inner_segment_is_skipped() {
    let api = Api {
        schemas: vec![object("a..B", vec![], vec![])],
        definitions: vec![("a..B".to_string(), 0)],
        paths: vec![],
    };
    let mut e = CodegenEmitter::new('.');
    assert!(e.generate(&api).is_ok());
    let o = find(&e, &["a", "b"]).expect("declared at a/b");
    assert_eq!(o.name, "B");
    assert_eq!(o.path, "a::b");
}

#[test]
fn error_missing_array_item_at_top_level() {
    let mut arr = scalar(DataType::Array);
    arr.name = Some("list".to_string());
    let api = Api {
        schemas: vec![arr],
        definitions: vec![("list".to_string(), 0)],
        paths: vec![],
    };
    let mut e = CodegenEmitter::new('.');
    match e.generate(&api) {
        Err(EmitError::MissingArrayItem(n)) => assert_eq!(n.as_deref(), Some("List")),
        _ => panic!("expected MissingArrayItem"),
    }
}

#[test]
fn failing_shared_parameter_leaves_registry() {
    let api = pets_api(
        Some(vec![param("q", None, None, false)]),
        op("listPets", None, vec![("200", Some(0))]),
    );
    let mut e = CodegenEmitter::new('.');
    assert!(e.generate_definitions(&api).is_ok());
    match e.collect_all_requirements(&api) {
        Err(EmitError::UnknownParameterType(n, p)) => {
            assert_eq!(n, "q");
            assert_eq!(p, "/pets");
        }
        _ => panic!("expected UnknownParameterType"),
    }
    assert!(find(&e, &["pet"]).unwrap().paths.is_empty());
}

#[test]
fn error_missing_array_item_in_property() {
    let mut arr = scalar(DataType::Array);
    arr.name = Some("list".to_string());
    let api = Api {
        schemas: vec![object("Holder", vec![("xs", 1)], vec![]), arr],
        definitions: vec![("Holder".to_string(), 0)],
        paths: vec![],
    };
    let mut e = CodegenEmitter::new('.');
    match e.generate(&api) {
        Err(EmitError::MissingArrayItem(n)) => assert_eq!(n.as_deref(), Some("List")),
        _ => panic!("expected MissingArrayItem"),
    }
}

#[test]
fn error_recursive_container() {
    let mut arr = scalar(DataType::Array);
    arr.items = Some(1);
    let api = Api {
        schemas: vec![object("Holder", vec![("xs", 1)], vec![]), arr],
        definitions: vec![("Holder".to_string(), 0)],
        paths: vec![],
    };
    let mut e = CodegenEmitter::new('.');
    assert!(matches!(e.generate(&api), Err(EmitError::RecursiveContainer(None))));
}

#[test]
fn error_unknown_parameter_type() {
    let api = pets_api(None, op("listPets", Some(vec![param("q", None, None, false)]), vec![]));
    let mut e = CodegenEmitter::new('.');
    match e.generate(&api) {
        Err(EmitError::UnknownParameterType(n, p)) => {
            assert_eq!(n, "q");
            assert_eq!(p, "/pets");
        }
        _ => panic!("expected UnknownParameterType"),
    }
}

#[test]
fn error_unsupported_parameter_definition() {
    let mut schemas = pet_schemas();
    schemas.push(object("Other", vec![], vec![]));
    let api = Api {
        schemas,
        definitions: vec![("Pet".to_string(), 0)],
        paths: vec![(
            "/pets".to_string(),
            OperationMap {
                parameters: None,
                methods: vec![(HttpMethod::Put, op("put", Some(vec![param("body", None, Some(3), true)]), vec![]))],
            },
        )],
    };
    let mut e = CodegenEmitter::new('.');
    match e.generate(&api) {
        Err(EmitError::UnsupportedParameterDefinition(n, p)) => {
            assert_eq!(n, "body");
            assert_eq!(p, "/pets");
        }
        _ => panic!("expected UnsupportedParameterDefinition"),
    }
}
