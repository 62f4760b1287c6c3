//! Descriptive records: the metadata of a collection and of each issued
//! item, and how the second is derived from the first and an identifier.

use vstd::prelude::*;
use vstd::string::*;

verus! {

/// The metadata of the collection as a whole.
#[derive(Clone, Debug, PartialEq, Eq)]
pub struct NFTContractMetadata {
    pub spec: String,
    /// The display name of the collection.
    pub name: String,
    pub symbol: String,
    pub icon: Option<String>,
    /// The prefix of the media locators, if one is configured.
    pub base_uri: Option<String>,
    pub reference: Option<String>,
    pub reference_hash: Option<Vec<u8>>,
}

/// The metadata of one issued item.
#[derive(Clone, Debug, PartialEq, Eq)]
pub struct TokenMetadata {
    pub title: Option<String>,
    pub description: Option<String>,
    pub media: Option<String>,
    pub media_hash: Option<Vec<u8>>,
    pub copies: Option<u64>,
    pub issued_at: Option<String>,
    pub expires_at: Option<String>,
    pub starts_at: Option<String>,
    pub updated_at: Option<String>,
    pub extra: Option<String>,
    pub reference: Option<String>,
    pub reference_hash: Option<Vec<u8>>,
}

/// The metadata of one issued item as a mathematical value.
pub struct TokenMetadataView {
    pub title: Option<Seq<char>>,
    pub description: Option<Seq<char>>,
    pub media: Option<Seq<char>>,
    pub media_hash: Option<Seq<u8>>,
    pub copies: Option<u64>,
    pub issued_at: Option<Seq<char>>,
    pub expires_at: Option<Seq<char>>,
    pub starts_at: Option<Seq<char>>,
    pub updated_at: Option<Seq<char>>,
    pub extra: Option<Seq<char>>,
    pub reference: Option<Seq<char>>,
    pub reference_hash: Option<Seq<u8>>,
}

/// The characters of an optional text.
pub open spec fn text_view(text: Option<String>) -> Option<Seq<char>> {
    match text {
        Some(s) => Some(s@),
        None => None,
    }
}

/// The bytes of an optional hash.
pub open spec fn bytes_view(bytes: Option<Vec<u8>>) -> Option<Seq<u8>> {
    match bytes {
        Some(b) => Some(b@),
        None => None,
    }
}

impl View for TokenMetadata {
    type V = TokenMetadataView;

    open spec fn view(&self) -> TokenMetadataView {
        TokenMetadataView {
            title: text_view(self.title),
            description: text_view(self.description),
            media: text_view(self.media),
            media_hash: bytes_view(self.media_hash),
            copies: self.copies,
            issued_at: text_view(self.issued_at),
            expires_at: text_view(self.expires_at),
            starts_at: text_view(self.starts_at),
            updated_at: text_view(self.updated_at),
            extra: text_view(self.extra),
            reference: text_view(self.reference),
            reference_hash: bytes_view(self.reference_hash),
        }
    }
}

/// The view of optional metadata.
pub open spec fn metadata_view(metadata: Option<TokenMetadata>) -> Option<TokenMetadataView> {
    match metadata {
        Some(m) => Some(m@),
        None => None,
    }
}

/// The decimal digit of a number below ten.
pub open spec fn digit(d: nat) -> char {
    if d == 0 {
        '0'
    } else if d == 1 {
        '1'
    } else if d == 2 {
        '2'
    } else if d == 3 {
        '3'
    } else if d == 4 {
        '4'
    } else if d == 5 {
        '5'
    } else if d == 6 {
        '6'
    } else if d == 7 {
        '7'
    } else if d == 8 {
        '8'
    } else {
        '9'
    }
}

/// A number in decimal, without leading zeros.
pub open spec fn decimal(n: nat) -> Seq<char>
    decreases n,
{
    if n < 10 {
        seq![digit(n)]
    } else {
        decimal(n / 10).push(digit(n % 10))
    }
}

/// The locator prefix of a collection: empty where none is configured.
pub open spec fn locator_prefix(base_uri: Option<String>) -> Seq<char> {
    match base_uri {
        Some(s) => s@,
        None => Seq::empty(),
    }
}

/// The title of an item: the display name, and the identifier after a `#`.
pub open spec fn title_text(name: Seq<char>, id: nat) -> Seq<char> {
    name + " #"@ + decimal(id)
}

/// The description of an item, the same for every item of a collection.
pub open spec fn description_text(name: Seq<char>) -> Seq<char> {
    name + ", minted by Dao Nation"@
}

/// The locator of the media of an item.
pub open spec fn media_text(prefix: Seq<char>, id: nat) -> Seq<char> {
    prefix + "/"@ + decimal(id) + ".png"@
}

/// The locator of the detail file of an item.
pub open spec fn reference_text(prefix: Seq<char>, id: nat) -> Seq<char> {
    prefix + "/"@ + decimal(id) + ".json"@
}

/// The record of the item with a given identifier, in a collection with a
/// given display name and locator prefix: a single copy, with a title, a
/// description and the locators of its media and of its detail file.
pub open spec fn described(name: Seq<char>, prefix: Seq<char>, id: nat) -> TokenMetadataView {
    TokenMetadataView {
        title: Some(title_text(name, id)),
        description: Some(description_text(name)),
        media: Some(media_text(prefix, id)),
        media_hash: None,
        copies: Some(1),
        issued_at: None,
        expires_at: None,
        starts_at: None,
        updated_at: None,
        extra: None,
        reference: Some(reference_text(prefix, id)),
        reference_hash: None,
    }
}

/// The digit of a number below ten, as a text.
fn digit_text(d: u128) -> (text: &'static str)
    requires
        d < 10,
    ensures
        text@ == seq![digit(d as nat)],
{
    proof {
        reveal_strlit("0");
        reveal_strlit("1");
        reveal_strlit("2");
        reveal_strlit("3");
        reveal_strlit("4");
        reveal_strlit("5");
        reveal_strlit("6");
        reveal_strlit("7");
        reveal_strlit("8");
        reveal_strlit("9");
    }
    let text = if d == 0 {
        "0"
    } else if d == 1 {
        "1"
    } else if d == 2 {
        "2"
    } else if d == 3 {
        "3"
    } else if d == 4 {
        "4"
    } else if d == 5 {
        "5"
    } else if d == 6 {
        "6"
    } else if d == 7 {
        "7"
    } else if d == 8 {
        "8"
    } else {
        "9"
    };
    assert(text@ =~= seq![digit(d as nat)]);
    text
}

/// Writes a number in decimal.
pub fn decimal_string(n: u128) -> (text: String)
    ensures
        text@ == decimal(n as nat),
    decreases n,
{
    if n < 10 {
        String::from_str(digit_text(n))
    } else {
        let mut text = decimal_string(n / 10);
        text.append(digit_text(n % 10));
        assert(text@ =~= decimal(n as nat));
        text
    }
}

/// A copy of an optional text.
fn copy_text(text: &Option<String>) -> (copy: Option<String>)
    ensures
        copy == *text,
{
    match text {
        Some(s) => Some(s.clone()),
        None => None,
    }
}

/// A copy of an optional hash.
fn copy_bytes(bytes: &Option<Vec<u8>>) -> (copy: Option<Vec<u8>>)
    ensures
        bytes_view(copy) == bytes_view(*bytes),
{
    match bytes {
        Some(b) => {
            let copy = b.clone();
            assert(copy@ =~= b@);
            Some(copy)
        },
        None => None,
    }
}

impl TokenMetadata {
    /// A copy with the same contents.
    pub fn duplicate(&self) -> (copy: TokenMetadata)
        ensures
            copy@ == self@,
    {
        TokenMetadata {
            title: copy_text(&self.title),
            description: copy_text(&self.description),
            media: copy_text(&self.media),
            media_hash: copy_bytes(&self.media_hash),
            copies: self.copies,
            issued_at: copy_text(&self.issued_at),
            expires_at: copy_text(&self.expires_at),
            starts_at: copy_text(&self.starts_at),
            updated_at: copy_text(&self.updated_at),
            extra: copy_text(&self.extra),
            reference: copy_text(&self.reference),
            reference_hash: copy_bytes(&self.reference_hash),
        }
    }
}

impl NFTContractMetadata {
    /// Builds the record of the item with the identifier `token_id` from the
    /// display name and the locator prefix of the collection.
    pub fn describe(&self, token_id: u128) -> (record: TokenMetadata)
        ensures
            record@ == described(self.name@, locator_prefix(self.base_uri), token_id as nat),
    {
        let number = decimal_string(token_id);
        let mut title = self.name.clone();
        title.append(" #");
        title.append(number.as_str());
        let mut description = self.name.clone();
        description.append(", minted by Dao Nation");
        let mut media = match &self.base_uri {
            Some(prefix) => prefix.clone(),
            None => String::new(),
        };
        let mut reference = media.clone();
        media.append("/");
        media.append(number.as_str());
        media.append(".png");
        reference.append("/");
        reference.append(number.as_str());
        reference.append(".json");
        TokenMetadata {
            title: Some(title),
            description: Some(description),
            media: Some(media),
            media_hash: None,
            copies: Some(1),
            issued_at: None,
            expires_at: None,
            starts_at: None,
            updated_at: None,
            extra: None,
            reference: Some(reference),
            reference_hash: None,
        }
    }
}

} // verus!
