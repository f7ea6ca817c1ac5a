use underskrift::doc_mdp::{build_docmdp_reference, set_docmdp_perms, CoreError, DocMdpPermissions};
use underskrift::inspect::pdf::{catalog, dict_get, PdfDict, PdfDocument, PdfObject};

/// A minimal document with an empty catalog (1 0) and an empty signature
/// dictionary (2 0).
fn doc_with_catalog() -> (PdfDocument, (u32, u16), (u32, u16)) {
    let doc = PdfDocument {
        version: "1.7".to_string(),
        objects: vec![
            (1, 0, PdfObject::Dictionary(PdfDict { entries: vec![] })),
            (2, 0, PdfObject::Dictionary(PdfDict { entries: vec![] })),
        ],
        trailer: PdfDict { entries: vec![(b"Root".to_vec(), PdfObject::Reference(1, 0))] },
    };
    (doc, (1, 0), (2, 0))
}

fn as_dict(o: &PdfObject) -> &PdfDict {
    match o {
        PdfObject::Dictionary(d) => d,
        other => panic!("not a dictionary: {:?}", other),
    }
}

fn as_name(o: &PdfObject) -> &[u8] {
    match o {
        PdfObject::Name(n) => n.as_slice(),
        other => panic!("not a name: {:?}", other),
    }
}

fn perms_of(doc: &PdfDocument) -> &PdfDict {
    let cat = catalog(doc).expect("catalog");
    as_dict(dict_get(cat, b"Perms").expect("Perms"))
}

#[test]
fn reference_carries_the_requested_permission_level() {
    let reference = build_docmdp_reference(DocMdpPermissions::NoChanges);
    let entries = match &reference {
        PdfObject::Array(a) => a,
        other => panic!("not an array: {:?}", other),
    };
    assert_eq!(entries.len(), 1);

    let sig_ref = as_dict(&entries[0]);
    assert_eq!(as_name(dict_get(sig_ref, b"TransformMethod").unwrap()), b"DocMDP");

    let params = as_dict(dict_get(sig_ref, b"TransformParams").unwrap());
    assert_eq!(as_name(dict_get(params, b"V").unwrap()), b"1.2");
    assert!(matches!(dict_get(params, b"P").unwrap(), PdfObject::Integer(1)));
}

#[test]
fn permission_levels_match_the_pdf_p_values() {
    assert_eq!(DocMdpPermissions::NoChanges.as_p(), 1);
    assert_eq!(DocMdpPermissions::FormFillingAndSigning.as_p(), 2);
    assert_eq!(DocMdpPermissions::FormFillingSigningAndAnnotation.as_p(), 3);
}

#[test]
fn perms_points_at_the_signature_dictionary() {
    let (mut doc, catalog_id, sig_dict_id) = doc_with_catalog();
    set_docmdp_perms(&mut doc, catalog_id, sig_dict_id).unwrap();

    let perms = perms_of(&doc);
    assert!(matches!(dict_get(perms, b"DocMDP").unwrap(), PdfObject::Reference(2, 0)));
}

#[test]
fn certifying_an_already_certified_document_is_rejected() {
    let (mut doc, catalog_id, sig_dict_id) = doc_with_catalog();
    set_docmdp_perms(&mut doc, catalog_id, sig_dict_id).unwrap();
    assert!(set_docmdp_perms(&mut doc, catalog_id, sig_dict_id).is_err());
}

#[test]
fn other_perms_entries_survive() {
    let (mut doc, catalog_id, sig_dict_id) = doc_with_catalog();
    let perms = PdfDict { entries: vec![(b"UR3".to_vec(), PdfObject::Reference(2, 0))] };
    doc.objects[0].2 =
        PdfObject::Dictionary(PdfDict { entries: vec![(b"Perms".to_vec(), PdfObject::Dictionary(perms))] });

    set_docmdp_perms(&mut doc, catalog_id, sig_dict_id).unwrap();

    let perms = perms_of(&doc);
    assert!(dict_get(perms, b"UR3").is_some());
    assert!(dict_get(perms, b"DocMDP").is_some());
}

#[test]
fn reference_for_each_level_carries_its_p_value() {
    for (level, p) in [
        (DocMdpPermissions::NoChanges, 1),
        (DocMdpPermissions::FormFillingAndSigning, 2),
        (DocMdpPermissions::FormFillingSigningAndAnnotation, 3),
    ] {
        let reference = build_docmdp_reference(level);
        let entries = match &reference {
            PdfObject::Array(a) => a,
            other => panic!("not an array: {:?}", other),
        };
        let sig_ref = as_dict(&entries[0]);
        assert_eq!(as_name(dict_get(sig_ref, b"Type").unwrap()), b"SigRef");
        let params = as_dict(dict_get(sig_ref, b"TransformParams").unwrap());
        assert_eq!(as_name(dict_get(params, b"Type").unwrap()), b"TransformParams");
        match dict_get(params, b"P").unwrap() {
            PdfObject::Integer(v) => assert_eq!(*v, p),
            other => panic!("not an integer: {:?}", other),
        }
    }
}

#[test]
fn default_permission_level_is_form_filling_and_signing() {
    assert_eq!(DocMdpPermissions::default().as_p(), 2);
}

#[test]
fn missing_catalog_is_refused_and_leaves_the_document_alone() {
    let (mut doc, _catalog_id, sig_dict_id) = doc_with_catalog();
    let r = set_docmdp_perms(&mut doc, (7, 0), sig_dict_id);
    assert!(matches!(r, Err(CoreError::InvalidStructure(_))));
    assert_eq!(doc.objects.len(), 2);
    assert!(as_dict(&doc.objects[0].2).entries.is_empty());
}

#[test]
fn a_catalog_that_is_not_a_dictionary_is_refused() {
    let (mut doc, catalog_id, sig_dict_id) = doc_with_catalog();
    doc.objects[0].2 = PdfObject::Integer(5);
    assert!(set_docmdp_perms(&mut doc, catalog_id, sig_dict_id).is_err());
}

/// A document whose catalog refers to its `/Perms` dictionary (3 0).
fn doc_with_indirect_perms() -> PdfDocument {
    let (mut doc, _, _) = doc_with_catalog();
    doc.objects[0].2 =
        PdfObject::Dictionary(PdfDict { entries: vec![(b"Perms".to_vec(), PdfObject::Reference(3, 0))] });
    doc.objects.push((
        3,
        0,
        PdfObject::Dictionary(PdfDict { entries: vec![(b"UR3".to_vec(), PdfObject::Reference(2, 0))] }),
    ));
    doc
}

#[test]
fn an_indirect_perms_dictionary_gets_the_entry_and_keeps_its_others() {
    let mut doc = doc_with_indirect_perms();
    set_docmdp_perms(&mut doc, (1, 0), (2, 0)).unwrap();
    // The catalog still refers to the same dictionary.
    let cat = catalog(&doc).unwrap();
    assert!(matches!(dict_get(cat, b"Perms"), Some(PdfObject::Reference(3, 0))));
    let perms = as_dict(&doc.objects[2].2);
    assert!(matches!(dict_get(perms, b"UR3"), Some(PdfObject::Reference(2, 0))));
    assert!(matches!(dict_get(perms, b"DocMDP"), Some(PdfObject::Reference(2, 0))));
    assert_eq!(perms.entries.len(), 2);
}

#[test]
fn certifying_through_an_indirect_perms_twice_is_rejected() {
    let mut doc = doc_with_indirect_perms();
    set_docmdp_perms(&mut doc, (1, 0), (2, 0)).unwrap();
    assert!(matches!(set_docmdp_perms(&mut doc, (1, 0), (2, 0)), Err(CoreError::InvalidStructure(_))));
    assert_eq!(as_dict(&doc.objects[2].2).entries.len(), 2);
}
