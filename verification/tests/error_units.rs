use i_lang::error::ErrorKind;

#[test]
fn new_trait_error_variants_exist() {
    let _ = ErrorKind::MissingImpl { trait_name: "Eq".into(), ty: "Point".into() };
    let _ = ErrorKind::DuplicateImpl { trait_name: "Eq".into(), ty: "Point".into() };
    let _ = ErrorKind::UnknownTrait { name: "Nope".into() };
    let _ = ErrorKind::MissingMethod { trait_name: "Eq".into(), method: "ne".into() };
    let _ = ErrorKind::UnknownMethod { trait_name: "Eq".into(), method: "zz".into() };
    let _ = ErrorKind::AmbiguousConstraint { trait_name: "Eq".into() };
}
