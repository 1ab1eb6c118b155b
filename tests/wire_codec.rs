use local_transform::field::WireField;
use local_transform::record::{decode, encode, WireEntry, WireError, WireRecord};

const X: f32 = 20.1;
const Y: f32 = 21.2;
const Z: f32 = 22.3;
const W: f32 = 0.43274233;
const I: f32 = 0.47601658;
const J: f32 = 0.5192908;
const K: f32 = 0.562565;
const S: f32 = 10.9;
const T: f32 = 11.8;
const U: f32 = 12.7;

fn identity() -> WireRecord<f32> {
    WireRecord {
        translation: [0.0; 3],
        rotation: [1.0, 0.0, 0.0, 0.0],
        scale: [1.0; 3],
    }
}

fn entry(field: WireField, values: &[f32]) -> WireEntry<f32> {
    WireEntry {
        field,
        values: values.to_vec(),
    }
}

fn same(a: &WireRecord<f32>, b: &WireRecord<f32>) -> bool {
    a.translation == b.translation && a.rotation == b.rotation && a.scale == b.scale
}

#[test]
fn test_transform_serialization() {
    let t1 = WireRecord {
        translation: [X, Y, Z],
        rotation: [W, I, J, K],
        scale: [S, T, U],
    };
    let es = encode(&t1);
    assert_eq!(es.len(), 3);
    assert_eq!(es[0].field.name(), "translation");
    assert_eq!(es[0].values, vec![X, Y, Z]);
    assert_eq!(es[1].field.name(), "rotation");
    assert_eq!(es[1].values, vec![W, I, J, K]);
    assert_eq!(es[2].field.name(), "scale");
    assert_eq!(es[2].values, vec![S, T, U]);
    let back = decode(&es, &identity()).unwrap();
    assert!(same(&back, &t1));

    // absent fields take their defaults
    let t2 = decode(&vec![entry(WireField::Translation, &[X, Y, Z])], &identity()).unwrap();
    assert!(same(
        &t2,
        &WireRecord {
            translation: [X, Y, Z],
            rotation: [1.0, 0.0, 0.0, 0.0],
            scale: [1.0; 3]
        }
    ));

    let t2 = decode(&vec![entry(WireField::Rotation, &[W, I, J, K])], &identity()).unwrap();
    assert!(same(
        &t2,
        &WireRecord {
            translation: [0.0; 3],
            rotation: [W, I, J, K],
            scale: [1.0; 3]
        }
    ));

    let t2 = decode(&vec![entry(WireField::Scale, &[S, T, U])], &identity()).unwrap();
    assert!(same(
        &t2,
        &WireRecord {
            translation: [0.0; 3],
            rotation: [1.0, 0.0, 0.0, 0.0],
            scale: [S, T, U]
        }
    ));
}

#[test]
fn encode_then_decode_is_identity_over_any_base() {
    let r = WireRecord {
        translation: [1.5, -2.0, 3.25],
        rotation: [0.0, 1.0, 0.0, 0.0],
        scale: [-1.0, 0.0, 2.0],
    };
    let base = WireRecord {
        translation: [9.0; 3],
        rotation: [9.0; 4],
        scale: [9.0; 3],
    };
    let back = decode(&encode(&r), &base).unwrap();
    assert!(same(&back, &r));
}

#[test]
fn empty_record_decodes_to_base() {
    let back = decode(&Vec::new(), &identity()).unwrap();
    assert!(same(&back, &identity()));
}

#[test]
fn fields_decode_in_any_order() {
    let es = vec![
        entry(WireField::Scale, &[S, T, U]),
        entry(WireField::Translation, &[X, Y, Z]),
    ];
    let back = decode(&es, &identity()).unwrap();
    assert!(same(
        &back,
        &WireRecord {
            translation: [X, Y, Z],
            rotation: [1.0, 0.0, 0.0, 0.0],
            scale: [S, T, U]
        }
    ));
}

#[test]
fn repeated_field_is_rejected() {
    let es = vec![
        entry(WireField::Translation, &[X, Y, Z]),
        entry(WireField::Scale, &[S, T, U]),
        entry(WireField::Translation, &[1.0, 2.0, 3.0]),
    ];
    let err = decode(&es, &identity()).unwrap_err();
    assert_eq!(err, WireError::DuplicateField(WireField::Translation));
    assert_eq!(err.field(), WireField::Translation);
}

#[test]
fn short_rotation_is_rejected() {
    let es = vec![entry(WireField::Rotation, &[W, I, J])];
    let err = decode(&es, &identity()).unwrap_err();
    assert_eq!(
        err,
        WireError::WrongCount {
            field: WireField::Rotation,
            found: 3
        }
    );
    assert_eq!(err.field().name(), "rotation");
}

#[test]
fn long_scale_is_rejected() {
    let es = vec![entry(WireField::Scale, &[S, T, U, 1.0])];
    let err = decode(&es, &identity()).unwrap_err();
    assert_eq!(
        err,
        WireError::WrongCount {
            field: WireField::Scale,
            found: 4
        }
    );
}

#[test]
fn first_malformed_entry_decides_the_error() {
    let es = vec![
        entry(WireField::Translation, &[X, Y]),
        entry(WireField::Translation, &[X, Y, Z]),
    ];
    let err = decode(&es, &identity()).unwrap_err();
    assert_eq!(
        err,
        WireError::WrongCount {
            field: WireField::Translation,
            found: 2
        }
    );
}

#[test]
fn field_keys_and_arities() {
    assert_eq!(WireField::Translation.name(), "translation");
    assert_eq!(WireField::Rotation.name(), "rotation");
    assert_eq!(WireField::Scale.name(), "scale");
    assert_eq!(WireField::Translation.arity(), 3);
    assert_eq!(WireField::Rotation.arity(), 4);
    assert_eq!(WireField::Scale.arity(), 3);
}

#[test]
fn keys_map_back_to_fields() {
    assert_eq!(WireField::from_key("translation"), Some(WireField::Translation));
    assert_eq!(WireField::from_key("rotation"), Some(WireField::Rotation));
    assert_eq!(WireField::from_key("scale"), Some(WireField::Scale));
    assert_eq!(WireField::from_key("Scale"), None);
    assert_eq!(WireField::from_key(""), None);
    assert_eq!(WireField::from_key("position"), None);
}

#[test]
fn canonical_order() {
    assert_eq!(WireField::at(0), Some(WireField::Translation));
    assert_eq!(WireField::at(1), Some(WireField::Rotation));
    assert_eq!(WireField::at(2), Some(WireField::Scale));
    assert_eq!(WireField::at(3), None);
}
