//! Inferring a media type for a served file from the extension of its name.

use vstd::prelude::*;

verus! {

/// The media type that the HTTP framework associates with a file extension,
/// written as a `Content-Type` header value, or `None` for an extension it
/// does not recognise. The association is a fixed table, so it is a function
/// of the extension alone; the table itself is not restated here.
pub uninterp spec fn media_type_of(ext: Seq<char>) -> Option<Seq<char>>;

/// Relies on `rocket::http::ContentType::from_extension`, a fixed lookup
/// from file extension to a known content type, and on the `Display` form of
/// the result, the constant header string that the content type was declared
/// with: both depend on the extension alone.
#[verifier::external_body]
pub(crate) fn lookup_media_type(ext: &str) -> (r: Option<String>)
    ensures
        r.deep_view() == media_type_of(ext@),
{
    rocket::http::ContentType::from_extension(ext).map(|c| c.to_string())
}

/// The extension of the file name that ends `name`: the characters after the
/// final `.` of the part behind the last `/`, provided that dot is not the
/// file name's leading character; `None` when there is no such dot.
pub open spec fn extension_spec(name: Seq<char>) -> Option<Seq<char>>
    decreases name.len(),
{
    if name.len() == 0 {
        None
    } else if name.last() == '/' {
        None
    } else if name.last() == '.' {
        if name.len() >= 2 && name[name.len() - 2] != '/' {
            Some(Seq::empty())
        } else {
            None
        }
    } else {
        match extension_spec(name.drop_last()) {
            Some(e) => Some(e.push(name.last())),
            None => None,
        }
    }
}

/// Read the extension off the end of a file name, as `extension_spec` has it.
pub fn extension_of(name: &str) -> (r: Option<String>)
    ensures
        r.deep_view() == extension_spec(name@),
{
    let n = name.unicode_len();
    let mut i: usize = n;
    proof {
        assert(name@.take(n as int) =~= name@);
        match extension_spec(name@) {
            Some(e) => {
                assert(e + name@.skip(n as int) =~= e);
            },
            None => {},
        }
    }
    while i > 0
        invariant
            n == name@.len(),
            i <= n,
            extension_spec(name@) == match extension_spec(name@.take(i as int)) {
                Some(e) => Some(e + name@.skip(i as int)),
                None => None::<Seq<char>>,
            },
        decreases i,
    {
        let c = name.get_char(i - 1);
        proof {
            assert(name@.take(i as int).last() == name@[i - 1]);
        }
        if c == '/' {
            return None;
        }
        if c == '.' {
            if i >= 2 && name.get_char(i - 2) != '/' {
                proof {
                    assert(name@.take(i as int)[i - 2] == name@[i - 2]);
                    assert(extension_spec(name@.take(i as int)) == Some(Seq::<char>::empty()));
                    assert(Seq::<char>::empty() + name@.skip(i as int) =~= name@.skip(i as int));
                }
                let ext = name.substring_char(i, n);
                let r = Some(String::from_str(ext));
                proof {
                    assert(name@.skip(i as int) =~= name@.subrange(i as int, n as int));
                }
                return r;
            } else {
                return None;
            }
        }
        proof {
            let t = name@.take(i as int);
            assert(t.drop_last() =~= name@.take(i - 1));
            match extension_spec(name@.take(i - 1)) {
                Some(e) => {
                    assert(extension_spec(t) == Some(e.push(name@[i - 1])));
                    assert(e.push(name@[i - 1]) + name@.skip(i as int) =~= e + name@.skip(
                        i - 1,
                    ));
                },
                None => {
                    assert(extension_spec(t) is None);
                },
            }
        }
        i -= 1;
    }
    proof {
        assert(name@.take(0) =~= Seq::<char>::empty());
    }
    None
}

/// The media type with which a file of the given name is served: the one the
/// framework's table gives for the name's extension, if it has both.
pub open spec fn content_type_spec(name: Seq<char>) -> Option<Seq<char>> {
    match extension_spec(name) {
        Some(e) => media_type_of(e),
        None => None,
    }
}

/// Infer the `Content-Type` header value for a file name.
pub fn infer_content_type(name: &str) -> (r: Option<String>)
    ensures
        r.deep_view() == content_type_spec(name@),
{
    match extension_of(name) {
        Some(ext) => lookup_media_type(ext.as_str()),
        None => None,
    }
}

} // verus!
