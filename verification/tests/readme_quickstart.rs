use serde_lax::derive::{
    decode_field, decode_optional_field, decode_unit_variant, object_expected, object_fields, one_of_expected,
};
use serde_lax::rename::RenameRule;
use serde_lax::{Context, FromJson, JsonValue};

struct Invoice {
    id: u64,
    amount: u64,
    description: Option<String>,
    line_items: Vec<LineItem>,
    status: Status,
}

impl FromJson for Invoice {
    fn expected() -> String {
        object_expected("Invoice")
    }

    fn from_json(value: &JsonValue, cx: &mut Context) -> Option<Self> {
        let fields = object_fields(value, &Self::expected(), cx)?;
        let rule = RenameRule::CamelCase;
        let id = decode_field::<u64>(fields, &rule.apply_to_field("id"), cx);
        let amount = decode_field::<u64>(fields, &rule.apply_to_field("amount"), cx);
        let description = decode_optional_field::<String>(fields, &rule.apply_to_field("description"), cx);
        let line_items = decode_field::<Vec<LineItem>>(fields, &rule.apply_to_field("line_items"), cx);
        let status = decode_field::<Status>(fields, &rule.apply_to_field("status"), cx);
        Some(Invoice {
            id: id?,
            amount: amount?,
            description: description?,
            line_items: line_items?,
            status: status?,
        })
    }
}

struct LineItem {
    sku: String,
    quantity: u32,
}

impl FromJson for LineItem {
    fn expected() -> String {
        object_expected("LineItem")
    }

    fn from_json(value: &JsonValue, cx: &mut Context) -> Option<Self> {
        let fields = object_fields(value, &Self::expected(), cx)?;
        let sku = decode_field::<String>(fields, "sku", cx);
        let quantity = decode_field::<u32>(fields, "quantity", cx);
        Some(LineItem { sku: sku?, quantity: quantity? })
    }
}

enum Status {
    Pending,
    Paid,
}

impl FromJson for Status {
    fn expected() -> String {
        one_of_expected(&["Pending", "Paid"])
    }

    fn from_json(value: &JsonValue, cx: &mut Context) -> Option<Self> {
        match decode_unit_variant(value, &["Pending", "Paid"], cx)? {
            0 => Some(Status::Pending),
            _ => Some(Status::Paid),
        }
    }
}

#[test]
fn quick_start_error_output_matches_the_readme() {
    let decoded = serde_lax::from_str::<Invoice>(
        r#"{"id":1,"amount":1500,"lineItems":[{"sku":"widget","quantity":2}],"status":"Pending"}"#,
    )
    .expect("decodes");
    assert_eq!(decoded.id, 1);
    assert_eq!(decoded.amount, 1500);
    assert_eq!(decoded.description, None);
    assert_eq!(decoded.line_items.len(), 1);
    assert_eq!(decoded.line_items[0].sku, "widget");
    assert_eq!(decoded.line_items[0].quantity, 2);
    match decoded.status {
        Status::Pending => {}
        Status::Paid => panic!("must decode Pending"),
    }

    let json = r#"
{
  "id": 1,
  "amount": "1500",
  "lineItems": [{"sku": "widget", "quantity": 2}],
  "status": "canceled"
}
"#;
    let error = match serde_lax::from_str::<Invoice>(json) {
        Ok(_) => panic!("must fail"),
        Err(error) => error,
    };
    assert_eq!(
        error.to_string(),
        "failed to decode into object `Invoice`: 2 issues\n  at $.amount: expected u64, found string \"1500\"\n  at $.status: expected one of \"Pending\" | \"Paid\", found string \"canceled\"",
    );
}
