//! A small pet-conversion exercise: a `Cat` record convertible from the
//! general `Pet` shape, with exact textual rendering.

use vstd::prelude::*;

use crate::text::{dec_digits, u64_to_string};

verus! {

/// A pet: a dog or a cat, each with an age and a name.
#[derive(Debug)]
pub enum Pet {
    Dog(u8, String),
    Cat(u8, String),
}

/// A cat with an age and a name.
#[derive(Clone, Debug)]
pub struct Cat {
    pub age: u8,
    pub name: String,
}

impl PartialEq for Cat {
    /// Cats are equal when both the age and the name agree.
    fn eq(&self, other: &Cat) -> (r: bool) {
        self.age == other.age && self.name == other.name
    }
}

impl vstd::std_specs::cmp::PartialEqSpecImpl for Cat {
    open spec fn obeys_eq_spec() -> bool {
        true
    }

    open spec fn eq_spec(&self, other: &Cat) -> bool {
        self.age == other.age && self.name@ == other.name@
    }
}

/// The message rejecting a dog: the dog's debug shape, embedded in prose.
pub open spec fn dog_rejection_text(age: u8, name: Seq<char>) -> Seq<char> {
    "can't convert Dog("@ + dec_digits(age as nat) + ", \""@ + name + "\") to Cat struct"@
}

/// The rendering of a cat: its name and age in prose.
pub open spec fn cat_display_text(age: u8, name: Seq<char>) -> Seq<char> {
    "Cat(name: "@ + name + ", age: "@ + dec_digits(age as nat) + ")"@
}

impl Cat {
    /// Converts a pet into a cat; a dog is rejected with a message naming it.
    pub fn try_from_pet(pet: Pet) -> (r: Result<Cat, String>)
        ensures
            match pet {
                Pet::Cat(age, name) => r matches Ok(c) && c.age == age && c.name@ == name@,
                Pet::Dog(age, name) => r matches Err(m) && m@ == dog_rejection_text(age, name@),
            },
    {
        match pet {
            Pet::Cat(age, name) => Ok(Cat { age, name }),
            Pet::Dog(age, name) => {
                let mut message = "can't convert Dog(".to_owned();
                message.append(u64_to_string(age as u64).as_str());
                message.append(", \"");
                message.append(name.as_str());
                message.append("\") to Cat struct");
                Err(message)
            },
        }
    }

    /// Turns the cat back into the general pet shape.
    pub fn into_pet(self) -> (r: Pet)
        ensures
            r matches Pet::Cat(age, name) && age == self.age && name@ == self.name@,
    {
        Pet::Cat(self.age, self.name)
    }

    /// The cat's name.
    pub fn name_str(&self) -> (r: &str)
        ensures
            r@ == self.name@,
    {
        self.name.as_str()
    }

    /// The cat rendered as prose.
    pub fn display_string(&self) -> (r: String)
        ensures
            r@ == cat_display_text(self.age, self.name@),
    {
        let mut message = "Cat(name: ".to_owned();
        message.append(self.name.as_str());
        message.append(", age: ");
        message.append(u64_to_string(self.age as u64).as_str());
        message.append(")");
        message
    }

    /// A cat aged by `rhs` years, the sum staying within the 8-bit range.
    pub fn add(self, rhs: u8) -> (r: Cat)
        requires
            self.age + rhs <= u8::MAX,
        ensures
            r.age == self.age + rhs,
            r.name@ == self.name@,
    {
        Cat { name: self.name, age: self.age + rhs }
    }

    /// Ages the cat in place by `rhs` years, within the 8-bit range.
    pub fn add_assign(&mut self, rhs: u8)
        requires
            old(self).age + rhs <= u8::MAX,
        ensures
            final(self).age == old(self).age + rhs,
            final(self).name@ == old(self).name@,
    {
        self.age = self.age + rhs;
    }
}

} // verus!
