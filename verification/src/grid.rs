//! The button grid of a panel: its models, their sizes, and positions on it.

use crate::text::{
    decimal, lemma_decimal_digits, lemma_decimal_injective, lowercase, push_decimal, str_eq,
    to_lowercase,
};
use vstd::prelude::*;
use vstd::string::*;

verus! {

/// A panel model.
#[derive(Clone, Copy, Debug, PartialEq, Eq, Structural)]
pub enum DeviceModel {
    Standard,
    XL,
    Mini,
}

/// A tag that names no panel model.
#[derive(Debug)]
pub struct UnknownModel {
    /// The tag as it was looked up, in lower case.
    pub tag: String,
}

impl UnknownModel {
    /// The failure in words.
    pub fn message(&self) -> (r: String)
        ensures
            r@ == "Unknown device model "@ + self.tag@,
    {
        let mut text = "Unknown device model ".to_owned();
        text.append(self.tag.as_str());
        text
    }
}

impl std::str::FromStr for DeviceModel {
    type Err = UnknownModel;

    /// The model that a tag names, whatever the case of its letters.
    fn from_str(s: &str) -> (r: Result<Self, UnknownModel>)
        ensures
            match r {
                Ok(model) => DeviceModel::of_tag(lowercase(s@)) == Some(model),
                Err(e) => DeviceModel::of_tag(lowercase(s@)) is None && e.tag@ == lowercase(s@),
            },
    {
        DeviceModel::from_tag(s)
    }
}

impl DeviceModel {
    /// The model that the lower-case tag `tag` names.
    pub open spec fn of_tag(tag: Seq<char>) -> Option<DeviceModel> {
        if tag == "standard"@ {
            Some(DeviceModel::Standard)
        } else if tag == "xl"@ {
            Some(DeviceModel::XL)
        } else if tag == "mini"@ {
            Some(DeviceModel::Mini)
        } else {
            None
        }
    }

    /// The model that a lower-case tag names: `standard`, `xl` or `mini`.
    pub fn from_lowercase(tag: String) -> (r: Result<Self, UnknownModel>)
        ensures
            match r {
                Ok(model) => Self::of_tag(tag@) == Some(model),
                Err(e) => Self::of_tag(tag@) is None && e.tag == tag,
            },
    {
        if str_eq(tag.as_str(), "standard") {
            Ok(DeviceModel::Standard)
        } else if str_eq(tag.as_str(), "xl") {
            Ok(DeviceModel::XL)
        } else if str_eq(tag.as_str(), "mini") {
            Ok(DeviceModel::Mini)
        } else {
            Err(UnknownModel { tag })
        }
    }

    /// The model that a tag names, whatever the case of its letters.
    pub fn from_tag(tag: &str) -> (r: Result<Self, UnknownModel>)
        ensures
            match r {
                Ok(model) => Self::of_tag(lowercase(tag@)) == Some(model),
                Err(e) => Self::of_tag(lowercase(tag@)) is None && e.tag@ == lowercase(tag@),
            },
    {
        Self::from_lowercase(to_lowercase(tag))
    }

    /// Width and height of the model's grid, in buttons.
    pub open spec fn spec_size(&self) -> (u8, u8) {
        match self {
            DeviceModel::Standard => (5u8, 3u8),
            DeviceModel::XL => (4u8, 8u8),
            DeviceModel::Mini => (3u8, 2u8),
        }
    }

    /// Number of columns.
    pub open spec fn width(&self) -> int {
        self.spec_size().0 as int
    }

    /// Number of rows.
    pub open spec fn height(&self) -> int {
        self.spec_size().1 as int
    }

    /// Number of cells of the grid.
    pub open spec fn capacity(&self) -> int {
        self.width() * self.height()
    }

    /// The model identifier as the device software knows it.
    pub open spec fn spec_id(&self) -> Seq<char> {
        match self {
            DeviceModel::Standard => "20GBA9901"@,
            DeviceModel::XL => "20GAT9901"@,
            DeviceModel::Mini => "unknown"@,
        }
    }

    /// The model identifier as the device software knows it.
    pub fn id(&self) -> (r: &'static str)
        ensures
            r@ == self.spec_id(),
    {
        match self {
            DeviceModel::Standard => "20GBA9901",
            DeviceModel::XL => "20GAT9901",
            DeviceModel::Mini => "unknown",
        }
    }

    /// Width and height of the model's grid, in buttons.
    #[verifier::when_used_as_spec(spec_size)]
    pub fn size(&self) -> (r: (u8, u8))
        ensures
            r == self.spec_size(),
    {
        match self {
            DeviceModel::Standard => (5, 3),
            DeviceModel::XL => (4, 8),
            DeviceModel::Mini => (3, 2),
        }
    }
}

/// A cell of the grid: column `x`, row `y`, both counted from 0.
#[derive(Clone, Copy, Debug, PartialEq, Eq, Hash, Structural)]
pub struct Position {
    pub x: u8,
    pub y: u8,
}

/// The key under which the button at `p` is stored: column and row as
/// decimal numerals with a comma between them.
pub open spec fn position_key(p: Position) -> Seq<char> {
    decimal(p.x as nat) + seq![','] + decimal(p.y as nat)
}

/// Different positions have different keys.
pub proof fn lemma_position_key_injective(p: Position, q: Position)
    requires
        position_key(p) == position_key(q),
    ensures
        p == q,
{
    let a = decimal(p.x as nat);
    let b = decimal(p.y as nat);
    let c = decimal(q.x as nat);
    let d = decimal(q.y as nat);
    let key = position_key(p);
    assert(key[a.len() as int] == ',');
    assert(position_key(q)[c.len() as int] == ',');
    if a.len() < c.len() {
        lemma_decimal_digits(q.x as nat, a.len() as int);
        assert(position_key(q)[a.len() as int] == c[a.len() as int]);
    } else if c.len() < a.len() {
        lemma_decimal_digits(p.x as nat, c.len() as int);
        assert(key[c.len() as int] == a[c.len() as int]);
    } else {
        assert(key.subrange(0, a.len() as int) =~= a);
        assert(position_key(q).subrange(0, c.len() as int) =~= c);
        lemma_decimal_injective(p.x as nat, q.x as nat);
        assert(key.subrange(a.len() as int + 1, key.len() as int) =~= b);
        assert(position_key(q).subrange(c.len() as int + 1, key.len() as int) =~= d);
        lemma_decimal_injective(p.y as nat, q.y as nat);
    }
}

impl Position {
    /// The cell in column `x` of row `y`.
    pub fn new(x: u8, y: u8) -> (r: Self)
        ensures
            r == (Position { x, y }),
    {
        Self { x, y }
    }

    /// The key under which the button at this position is stored.
    pub fn to_string(&self) -> (r: String)
        ensures
            r@ == position_key(*self),
    {
        let mut key = String::new();
        push_decimal(&mut key, self.x as usize);
        key.push(',');
        push_decimal(&mut key, self.y as usize);
        proof {
            assert(key@ =~= position_key(*self));
        }
        key
    }
}

} // verus!
