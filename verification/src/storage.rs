//! Helpers around the object store's public URLs.  The store itself
//! (uploading, serving and deleting file bytes) is an outside
//! collaborator; only the URL arithmetic lives here.

use vstd::prelude::*;
use vstd::string::*;

verus! {

/// The public URL under which a stored object is served: the store's
/// base URL, a slash, and the object key.
pub fn get_public_url(public_url: &str, key: &str) -> (r: String)
    ensures
        r@ == public_url@ + seq!['/'] + key@,
{
    let mut url = public_url.to_owned();
    url.append("/");
    proof {
        reveal_strlit("/");
        assert("/"@ =~= seq!['/']);
    }
    url.append(key);
    url
}

/// Recovers the object key from a public URL: the part after
/// `{public_url}/`, or nothing when the URL does not start with that
/// prefix.  Inverse of `get_public_url`.
#[verifier::loop_isolation(false)]
pub fn extract_key_from_url(url: &str, public_url: &str) -> (r: Option<String>)
    ensures
        match r {
            Some(k) => url@ == public_url@ + seq!['/'] + k@,
            None => forall|k: Seq<char>| url@ != public_url@ + seq!['/'] + k,
        },
{
    let ulen = url.unicode_len();
    let plen = public_url.unicode_len();
    if ulen <= plen {
        proof {
            assert forall|k: Seq<char>| url@ != public_url@ + seq!['/'] + k by {
                assert((public_url@ + seq!['/'] + k).len() >= plen + 1);
            }
        }
        return None;
    }
    let mut i: usize = 0;
    while i < plen
        invariant
            i <= plen,
            forall|j: int| 0 <= j < i ==> url@[j] == public_url@[j],
        decreases plen - i,
    {
        if url.get_char(i) != public_url.get_char(i) {
            proof {
                let at = i as int;
                assert forall|k: Seq<char>| url@ != public_url@ + seq!['/'] + k by {
                    if url@ == public_url@ + seq!['/'] + k {
                        assert(url@[at] == (public_url@ + seq!['/'] + k)[at]);
                        assert((public_url@ + seq!['/'] + k)[at] == public_url@[at]);
                    }
                }
            }
            return None;
        }
        i += 1;
    }
    if url.get_char(plen) != '/' {
        proof {
            let at = plen as int;
            assert forall|k: Seq<char>| url@ != public_url@ + seq!['/'] + k by {
                if url@ == public_url@ + seq!['/'] + k {
                    assert(url@[at] == (public_url@ + seq!['/'] + k)[at]);
                    assert((public_url@ + seq!['/'] + k)[at] == '/');
                }
            }
        }
        return None;
    }
    let key = url.substring_char(plen + 1, ulen);
    proof {
        assert(url@ =~= public_url@ + seq!['/'] + key@);
    }
    Some(key.to_owned())
}

/// Round trip: the key of a freshly built public URL is the key it was
/// built from.
pub proof fn lemma_url_round_trip(public_url: Seq<char>, key: Seq<char>, recovered: Seq<char>)
    requires
        public_url + seq!['/'] + key == public_url + seq!['/'] + recovered,
    ensures
        recovered == key,
{
    let a = public_url + seq!['/'] + key;
    let b = public_url + seq!['/'] + recovered;
    assert(a.len() == public_url.len() + 1 + key.len());
    assert(b.len() == public_url.len() + 1 + recovered.len());
    assert(key.len() == recovered.len());
    assert forall|j: int| 0 <= j < key.len() implies key[j] == recovered[j] by {
        assert(a[public_url.len() + 1 + j] == key[j]);
        assert(b[public_url.len() + 1 + j] == recovered[j]);
    }
    assert(key =~= recovered);
}

} // verus!
