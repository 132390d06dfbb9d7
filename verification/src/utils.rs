//! Object-store naming and command-line argument records.
//!
//! A finished document is stored under an object key derived from the
//! party and date; a retrievable link combines the fixed storage location
//! with that key. Building and taking apart those links is plain string
//! logic and is verified here; the upload itself is I/O and lives outside
//! the crate.

use vstd::prelude::*;

verus! {

use vstd::string::StringExecFns;

/// A stored object: its key and the bucket holding it.
pub struct S3Object {
    pub key: String,
    pub bucket: String,
}

impl S3Object {
    /// Builds an object reference from its key and bucket.
    pub fn new(key: String, bucket: String) -> (r: Self)
        ensures
            r.key == key,
            r.bucket == bucket,
    {
        S3Object { key, bucket }
    }
}

/// The party a buyer order or invoice is addressed to.
pub struct BuyerDetails {
    pub name: String,
    pub address1: String,
    pub address2: Option<String>,
    pub city: String,
    pub postcode: String,
    pub country: String,
    pub number: String,
}

/// The retrievable link for a stored object: the fixed storage location
/// combined with the bucket and key.
pub open spec fn link_chars(key: Seq<char>, bucket: Seq<char>) -> Seq<char> {
    "https://"@ + bucket + ".s3.eu-west-2.amazonaws.com/"@ + key
}

/// Builds the retrievable link for a stored object.
pub fn generate_link(s3_object: &S3Object) -> (r: String)
    ensures
        r@ == link_chars(s3_object.key@, s3_object.bucket@),
{
    let mut s = String::from_str("https://");
    s.append(s3_object.bucket.as_str());
    s.append(".s3.eu-west-2.amazonaws.com/");
    s.append(s3_object.key.as_str());
    proof {
        assert(s@ =~= link_chars(s3_object.key@, s3_object.bucket@));
    }
    s
}

/// The index of the last `'/'` in `s`, or `-1` when there is none.
pub open spec fn last_slash(s: Seq<char>) -> int
    decreases s.len(),
{
    if s.len() == 0 {
        -1
    } else if s.last() == '/' {
        s.len() - 1
    } else {
        last_slash(s.drop_last())
    }
}

/// What follows the last `'/'` of `s`: the whole of `s` when it has none.
pub open spec fn last_segment(s: Seq<char>) -> Seq<char> {
    s.skip(last_slash(s) + 1)
}

/// Recovers the stored object a link points into the given bucket: its key
/// is the link's last path segment.
#[verifier::loop_isolation(false)]
pub fn s3_link_to_object(link: &String, bucket: &String) -> (r: S3Object)
    ensures
        r.key@ == last_segment(link@),
        r.bucket@ == bucket@,
{
    let t = link.as_str();
    let n = t.unicode_len();
    let ghost s = t@;
    let mut cut: usize = 0;
    let mut i: usize = 0;
    proof {
        assert(s.take(0) =~= Seq::<char>::empty());
    }
    while i < n
        invariant
            i <= n,
            cut == last_slash(s.take(i as int)) + 1,
            cut <= i,
        decreases n - i,
    {
        let u = t.get_char(i) as u32;
        proof {
            assert(s[i as int] == '/' <==> s[i as int] as int == 47) by {
                assert('/' as int == 47);
            }
            assert(s.take(i + 1).drop_last() =~= s.take(i as int));
            assert(s.take(i + 1).last() == s[i as int]);
        }
        if u == 47 {
            cut = i + 1;
        }
        i = i + 1;
    }
    proof {
        assert(s.take(n as int) =~= s);
    }
    let key = t.substring_char(cut, n);
    proof {
        assert(key@ =~= last_segment(s));
    }
    S3Object::new(String::from_str(key), bucket.clone())
}

/// Command-line arguments for generating a month's invoices: the month as
/// `MM_YYYY` and the directory holding the spreadsheets.
pub struct InvoiceArgs {
    pub month: Option<String>,
    pub path: Option<String>,
}

/// Command-line arguments for generating invoices straight from a records
/// file.
pub struct InvoiceDevArgs {
    pub path: Option<String>,
}

} // verus!
