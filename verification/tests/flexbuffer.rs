use std::fmt;

use flexbuffers::FlexbufferSerializer;
use serde::de::{Deserialize, Deserializer, IgnoredAny, MapAccess, Visitor};
use serde::ser::{Serialize, SerializeStruct, Serializer};

use statekit::serde::flexbuffer::Container;

#[derive(PartialEq, Eq, Clone, Debug)]
struct Person {
    pub age: u32,
    pub name: String,
}

impl Serialize for Person {
    fn serialize<S: Serializer>(&self, serializer: S) -> Result<S::Ok, S::Error> {
        let mut fields = serializer.serialize_struct("Person", 2)?;
        fields.serialize_field("age", &self.age)?;
        fields.serialize_field("name", &self.name)?;
        fields.end()
    }
}

struct PersonVisitor;

impl<'de> Visitor<'de> for PersonVisitor {
    type Value = Person;

    fn expecting(&self, formatter: &mut fmt::Formatter) -> fmt::Result {
        formatter.write_str("a person with an age and a name")
    }

    fn visit_map<A: MapAccess<'de>>(self, mut map: A) -> Result<Person, A::Error> {
        let mut age: Option<u32> = None;
        let mut name: Option<String> = None;
        while let Some(key) = map.next_key::<String>()? {
            match key.as_str() {
                "age" => age = Some(map.next_value()?),
                "name" => name = Some(map.next_value()?),
                _ => {
                    map.next_value::<IgnoredAny>()?;
                }
            }
        }
        let age = age.ok_or_else(|| serde::de::Error::missing_field("age"))?;
        let name = name.ok_or_else(|| serde::de::Error::missing_field("name"))?;
        Ok(Person { age, name })
    }
}

impl<'de> Deserialize<'de> for Person {
    fn deserialize<D: Deserializer<'de>>(deserializer: D) -> Result<Self, D::Error> {
        deserializer.deserialize_struct("Person", &["age", "name"], PersonVisitor)
    }
}

#[test]
fn constructor() {
    let person = Person { age: 32, name: "Henry".to_owned() };
    let mut serializer = FlexbufferSerializer::new();

    person.serialize(&mut serializer).unwrap();

    let container: Container<Person> = Container::new(serializer.view());
    let deserialized: Person = flexbuffers::from_slice(container.as_bytes()).unwrap();

    assert_eq!(deserialized, person);
}

#[test]
fn container_hands_back_the_bytes_it_was_made_of() {
    let bytes = [3u8, 1, 4, 1, 5];
    let container: Container<Person> = Container::new(&bytes);
    assert_eq!(container.as_bytes(), &bytes);

    let empty: Container<Person> = Container::new(&[]);
    assert_eq!(empty.as_bytes().len(), 0);
}
