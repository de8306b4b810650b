//! The correction batch and its upload form.

use itretail_automation::pos::{
    plu_batch, FieldBatchError, PLUAssignment, ProductFieldAssignments,
};

#[test]
fn test_generic_plu_assignment() {
    let plus: Vec<PLUAssignment> = vec![
        PLUAssignment { upc: "01230123".to_owned(), plu: 123 },
        PLUAssignment { upc: "91829312".to_owned(), plu: 1122 },
    ];
    let mut csvcontents = "UPC,PLU\r\n".to_string();
    csvcontents.push_str(
        &plus
            .iter()
            .map(|ass| format!("{},{}\r\n", ass.upc, ass.plu))
            .collect::<String>(),
    );

    let mut pfa = ProductFieldAssignments::new(vec!["UPC".to_owned(), "PLU".to_owned()]);
    plus.iter().for_each(|x| {
        pfa.add(&vec![&x.upc, &x.plu.to_string()]).expect("good item")
    });
    assert_eq!(csvcontents, pfa.as_csv());
}

#[test]
fn form_header_quotes_and_brackets_the_field_names() {
    let pfa = ProductFieldAssignments::new(vec!["upc".to_owned(), "PLU".to_owned()]);
    assert_eq!("[\"upc\",\"PLU\"]", pfa.form_header());
}

#[test]
fn empty_batch_renders_header_and_blank_row() {
    let pfa = ProductFieldAssignments::new(vec!["upc".to_owned(), "PLU".to_owned()]);
    assert_eq!("upc,PLU\r\n\r\n", pfa.as_csv());
}

#[test]
fn add_rejects_wrong_row_length() {
    let mut pfa = ProductFieldAssignments::new(vec!["upc".to_owned(), "PLU".to_owned()]);
    let lone = "0012345678901".to_owned();
    assert_eq!(Err(FieldBatchError::BadItemLength), pfa.add(&vec![&lone]));
}

#[test]
fn add_rejects_values_with_commas() {
    let mut pfa = ProductFieldAssignments::new(vec!["upc".to_owned(), "PLU".to_owned()]);
    let bad = "0012345,78901".to_owned();
    let plu = "950".to_owned();
    assert_eq!(Err(FieldBatchError::CommaInValue), pfa.add(&vec![&bad, &plu]));
    assert_eq!("upc,PLU\r\n\r\n", pfa.as_csv());
}

#[test]
fn plu_batch_builds_the_upload_form() {
    let plus = vec![
        PLUAssignment { upc: "0021111100000".to_owned(), plu: 1 },
        PLUAssignment { upc: "0029999900000".to_owned(), plu: 1001 },
    ];
    let pfa = plu_batch(&plus).expect("clean batch");
    assert_eq!("[\"upc\",\"PLU\"]", pfa.form_header());
    assert_eq!(
        "upc,PLU\r\n0021111100000,1\r\n0029999900000,1001\r\n",
        pfa.as_csv()
    );
}

#[test]
fn plu_batch_refuses_a_comma_in_a_upc() {
    let plus = vec![PLUAssignment { upc: "002,111100000".to_owned(), plu: 1 }];
    assert!(matches!(plu_batch(&plus), Err(FieldBatchError::CommaInValue)));
}
