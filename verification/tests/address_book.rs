use validations::Error;
use validations::Errors;
use validations::Validate;

#[derive(Debug)]
struct AddressBookEntry {
    cell_number: Option<PhoneNumber>,
    email: Option<Email>,
    home_number: Option<PhoneNumber>,
    name: &'static str,
}

#[derive(Debug)]
struct Email(&'static str);

#[derive(Debug)]
struct PhoneNumber {
    area_code: &'static str,
    number: &'static str,
}

#[derive(Debug)]
struct InvalidCharacters {
    invalid_characters: Vec<char>,
}

impl Validate<InvalidCharacters> for AddressBookEntry {
    fn validate(&self) -> Result<(), Errors<InvalidCharacters>> {
        let mut errors = Errors::new();

        if self.cell_number.is_none() && self.home_number.is_none() {
            errors.add_error(Error::new("at least one phone number is required"));
        }

        if self.name.len() == 0 {
            errors.add_field_error("name", Error::new("can't be blank"));
        }

        if let Some(ref email) = self.email {
            if let Err(field_errors) = email.validate() {
                errors.set_field_errors("email", field_errors);
            }
        }

        let numbers_to_check = [
            ("home_number", &self.home_number),
            ("cell_number", &self.cell_number),
        ];

        for &(field_name, field) in &numbers_to_check {
            if field.is_some() {
                let invalid_characters =
                    InvalidCharacters::check_digits(&field.as_ref().unwrap().full_number());

                if invalid_characters.len() > 0 {
                    errors.add_field_error(
                        field_name,
                        Error::with_details(
                            "has invalid characters",
                            InvalidCharacters {
                                invalid_characters: invalid_characters,
                            },
                        ),
                    );
                }
            }
        }

        if errors.is_empty() {
            Ok(())
        } else {
            Err(errors)
        }
    }
}

impl Validate<InvalidCharacters> for Email {
    fn validate(&self) -> Result<(), Errors<InvalidCharacters>> {
        let email = self.0;

        if !email.contains("@") {
            let mut errors = Errors::new();

            errors.add_error(Error::new("must contain an @ symbol"));

            return Err(errors);
        }

        Ok(())
    }
}

impl PhoneNumber {
    pub fn full_number(&self) -> String {
        format!("{}-{}", self.area_code, self.number)
    }
}

impl InvalidCharacters {
    pub fn check_digits(number: &str) -> Vec<char> {
        number.replace("-", "").chars().filter(|c| !c.is_digit(10)).collect()
    }

    pub fn invalid_characters(&self) -> &[char] {
        self.invalid_characters.as_slice()
    }
}

#[test]
fn valid_value() {
    let entry = AddressBookEntry {
        cell_number: None,
        email: Some(Email("rcohle@dps.la.gov")),
        home_number: Some(PhoneNumber {
            area_code: "555",
            number: "555-5555",
        }),
        name: "Rust Cohle",
    };

    assert!(entry.validate().is_ok());
}

#[test]
fn base_error() {
    let entry = AddressBookEntry {
        cell_number: None,
        email: Some(Email("rcohle@dps.la.gov")),
        home_number: None,
        name: "Rust Cohle",
    };

    let errors = entry.validate().err().unwrap();

    assert_eq!(
        errors.base().unwrap()[0].message(),
        "at least one phone number is required".to_string()
    );
}

#[test]
fn field_error() {
    let entry = AddressBookEntry {
        cell_number: None,
        email: Some(Email("rcohle@dps.la.gov")),
        home_number: Some(PhoneNumber {
            area_code: "555",
            number: "555-5555",
        }),
        name: "",
    };

    let errors = entry.validate().err().unwrap();

    assert_eq!(
        errors.field("name").unwrap().base().unwrap()[0].message(),
        "can't be blank".to_string()
    );
}

#[test]
fn delegate_to_field() {
    let entry = AddressBookEntry {
        cell_number: None,
        email: Some(Email("rcohle")),
        home_number: Some(PhoneNumber {
            area_code: "555",
            number: "555-5555",
        }),
        name: "Rust Cohle",
    };

    let errors = entry.validate().err().unwrap();

    assert_eq!(
        errors.field("email").unwrap().base().unwrap()[0].message(),
        "must contain an @ symbol".to_string()
    );
}

#[test]
fn details() {
    let entry = AddressBookEntry {
        cell_number: None,
        email: Some(Email("rcohle@dps.la.gov")),
        home_number: Some(PhoneNumber {
            area_code: "555",
            number: "x55-55t5",
        }),
        name: "",
    };

    let errors = entry.validate().err().unwrap();

    let invalid_characters = errors.field("home_number").unwrap().base().unwrap()[0]
        .details()
        .unwrap()
        .invalid_characters();

    assert!(invalid_characters.contains(&'x'));
    assert!(invalid_characters.contains(&'t'));
}

#[test]
fn details_keep_order_and_duplicates() {
    let entry = AddressBookEntry {
        cell_number: Some(PhoneNumber {
            area_code: "5a5",
            number: "b55-5a5b",
        }),
        email: None,
        home_number: None,
        name: "Marty Hart",
    };

    let errors = entry.validate().err().unwrap();

    assert!(errors.base().is_none());
    assert!(errors.field("home_number").is_none());
    let nested = errors.field("cell_number").unwrap();
    let records = nested.base().unwrap();
    assert_eq!(records.len(), 1);
    assert_eq!(records[0].message(), "has invalid characters");
    assert_eq!(
        records[0].details().unwrap().invalid_characters(),
        &['a', 'b', 'a', 'b']
    );
}

#[test]
fn every_violation_is_reported() {
    let entry = AddressBookEntry {
        cell_number: None,
        email: Some(Email("rcohle")),
        home_number: None,
        name: "",
    };

    let errors = entry.validate().err().unwrap();

    assert_eq!(errors.base().unwrap().len(), 1);
    assert_eq!(
        errors.field("name").unwrap().base().unwrap()[0].message(),
        "can't be blank"
    );
    assert_eq!(
        errors.field("email").unwrap().base().unwrap()[0].message(),
        "must contain an @ symbol"
    );
    assert!(errors.field("home_number").is_none());
}
