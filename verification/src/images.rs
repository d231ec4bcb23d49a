//! Finding a picture for a product: what to search for, and the record of
//! the picture that was chosen.

use vstd::prelude::*;
use vstd::string::StringSliceAdditionalSpecFns;
use crate::text::{chars_of, push_text, strip_prefix, string_of};

verus! {

/// The picture of a product: where it was found, and the digest of its
/// bytes, under which it is kept.
#[derive(Clone, Debug, PartialEq, Eq)]
pub struct Image {
    pub url: String,
    pub hash: String,
}

/// The SHA-256 digest of some bytes, written in hexadecimal.
pub uninterp spec fn sha256_hex(data: Seq<u8>) -> Seq<char>;

/// Whether a byte stands for itself in a form: a letter or a digit of ASCII,
/// or one of `*`, `-`, `.` and `_`.
pub open spec fn kept_in_forms(b: u8) -> bool {
    b == 42 || b == 45 || b == 46 || (48 <= b <= 57) || (65 <= b <= 90) || b == 95 || (97 <= b
        <= 122)
}

/// The digit of base sixteen for a number below sixteen, in capitals.
pub open spec fn hex_digit(n: nat) -> char
    recommends
        n < 16,
{
    if n < 10 {
        ((48 + n) as u8) as char
    } else {
        ((55 + n) as u8) as char
    }
}

/// What stands for a byte in a form: the byte itself, a plus sign for a
/// space, or a percent sign and the byte's two digits of base sixteen.
pub open spec fn form_byte(b: u8) -> Seq<char> {
    if kept_in_forms(b) {
        seq![b as char]
    } else if b == 32 {
        seq!['+']
    } else {
        seq!['%', hex_digit((b / 16) as nat), hex_digit((b % 16) as nat)]
    }
}

/// What stands for some bytes in a form.
pub open spec fn form_encoded(bytes: Seq<u8>) -> Seq<char>
    decreases bytes.len(),
{
    if bytes.len() == 0 {
        Seq::empty()
    } else {
        form_encoded(bytes.drop_last()) + form_byte(bytes.last())
    }
}

/// The text for a form. This is `url::form_urlencoded::byte_serialize` on the
/// bytes of the text, its pieces taken together: every byte is written as
/// `form_byte` says.
#[verifier::external_body]
fn form_encode(text: &str) -> (r: String)
    ensures
        r@ == form_encoded(text.spec_bytes()),
{
    url::form_urlencoded::byte_serialize(text.as_bytes()).collect()
}

/// The digest of some bytes. This is `sha256::digest`: the SHA-256 digest of
/// the bytes in hexadecimal, the same for the same bytes.
#[verifier::external_body]
fn content_hash(data: &[u8]) -> (r: String)
    ensures
        r@ == sha256_hex(data@),
{
    sha256::digest(data)
}

/// Whether a product still wants a picture: it has none, and it has a link
/// to look at.
pub fn wants_image(image: &Option<Image>, links: &Vec<String>) -> (r: bool)
    ensures
        r == (image is None && links@.len() > 0),
{
    image.is_none() && links.len() > 0
}

/// What names the container among the first `n` tags: for each tag that
/// begins with `container/`, a space and the rest of the tag.
pub open spec fn container_words(tags: Seq<String>, n: int) -> Seq<char>
    decreases n,
{
    if n <= 0 {
        Seq::empty()
    } else if "container/"@.is_prefix_of(tags[n - 1]@) {
        container_words(tags, n - 1) + " "@ + tags[n - 1]@.skip("container/"@.len() as int)
    } else {
        container_words(tags, n - 1)
    }
}

/// What to search for: the product's name, its size, and its containers.
pub open spec fn search_text(name: Seq<char>, size: Seq<char>, tags: Seq<String>) -> Seq<char> {
    name + " "@ + size + container_words(tags, tags.len() as int)
}

/// What to search for to find a picture of a product.
pub fn search_query(name: &str, size: &str, tags: &Vec<String>) -> (r: String)
    ensures
        r@ == search_text(name@, size@, tags@),
{
    let mut query = String::new();
    push_text(&mut query, name);
    push_text(&mut query, " ");
    push_text(&mut query, size);
    let ghost head = query@;
    assert(head =~= name@ + " "@ + size@);
    let mut i: usize = 0;
    assert(query@ =~= head + container_words(tags@, 0));
    while i < tags.len()
        invariant
            i <= tags@.len(),
            query@ == head + container_words(tags@, i as int),
        decreases tags@.len() - i,
    {
        let tag = chars_of(tags[i].as_str());
        match strip_prefix(tag.as_slice(), "container/") {
            Some(rest) => {
                push_text(&mut query, " ");
                let word = string_of(rest);
                push_text(&mut query, word.as_str());
                assert(query@ =~= head + container_words(tags@, i + 1));
            },
            None => {},
        }
        i += 1;
    }
    query
}

/// The address of a search for `query`.
pub fn search_address(query: &str) -> (r: String)
    ensures
        r@ == "https://duckduckgo.com/?q="@ + form_encoded(query.spec_bytes()),
{
    let mut out = String::new();
    push_text(&mut out, "https://duckduckgo.com/?q=");
    let encoded = form_encode(query);
    push_text(&mut out, encoded.as_str());
    out
}

impl Image {
    /// The record of a picture with a known digest.
    pub fn new(url: String, hash: String) -> (r: Image)
        ensures
            r.url == url,
            r.hash == hash,
    {
        Image { url, hash }
    }

    /// The record of the picture found at `url` with the bytes `data`.
    pub fn of(url: String, data: &[u8]) -> (r: Image)
        ensures
            r.url == url,
            r.hash@ == sha256_hex(data@),
    {
        Image::new(url, content_hash(data))
    }
}

} // verus!
