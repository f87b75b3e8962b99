//! Base addresses from the environment: the public address under which
//! deployments are served and the address of the management API.

use vstd::prelude::*;

use crate::text::{
    has_prefix, is_whitespace, starts_with, strip_trailing, trim, trim_end, trim_then_strip,
};

verus! {

/// Why an address was refused.
#[derive(Clone, Copy, PartialEq, Eq, Structural, Debug)]
pub enum AddressError {
    /// `LOCAL_DEPLOY_PUBLIC_ADDRESS` is empty once normalised.
    EmptyPublicAddress,
    /// `LOCAL_DEPLOY_PUBLIC_ADDRESS` has neither `http://` nor `https://`.
    PublicAddressWithoutScheme,
    /// `LOCAL_DEPLOY_MANAGEMENT_ADDRESS` is empty once normalised.
    EmptyManagementAddress,
}

impl AddressError {
    /// The error text.
    pub fn message(&self) -> (r: String)
        ensures
            *self == AddressError::EmptyPublicAddress ==> r@
                == "LOCAL_DEPLOY_PUBLIC_ADDRESS must not be empty"@,
            *self == AddressError::PublicAddressWithoutScheme ==> r@
                == "LOCAL_DEPLOY_PUBLIC_ADDRESS must include http:// or https://"@,
            *self == AddressError::EmptyManagementAddress ==> r@
                == "LOCAL_DEPLOY_MANAGEMENT_ADDRESS must not be empty"@,
    {
        match self {
            AddressError::EmptyPublicAddress => "LOCAL_DEPLOY_PUBLIC_ADDRESS must not be empty".to_owned(),
            AddressError::PublicAddressWithoutScheme => "LOCAL_DEPLOY_PUBLIC_ADDRESS must include http:// or https://".to_owned(),
            AddressError::EmptyManagementAddress => "LOCAL_DEPLOY_MANAGEMENT_ADDRESS must not be empty".to_owned(),
        }
    }
}

/// An address as both components use it: surrounding whitespace removed,
/// then every trailing `/`.
pub open spec fn normalized(raw: Seq<char>) -> Seq<char> {
    strip_trailing(trim(raw), '/')
}

/// `http://`.
pub open spec fn http_scheme() -> Seq<char> {
    seq!['h', 't', 't', 'p', ':', '/', '/']
}

/// `https://`.
pub open spec fn https_scheme() -> Seq<char> {
    seq!['h', 't', 't', 'p', 's', ':', '/', '/']
}

/// Whether `s` begins with `http://` or `https://`.
pub open spec fn has_web_scheme(s: Seq<char>) -> bool {
    has_prefix(s, http_scheme()) || has_prefix(s, https_scheme())
}

/// Normalises `LOCAL_DEPLOY_PUBLIC_ADDRESS`: it must be non-empty and begin
/// with `http://` or `https://` once normalised.
pub fn normalize_address(raw: String) -> (r: Result<String, AddressError>)
    ensures
        match r {
            Ok(a) => a@ == normalized(raw@) && normalized(raw@).len() > 0 && has_web_scheme(
                normalized(raw@),
            ),
            Err(e) => if normalized(raw@).len() == 0 {
                e == AddressError::EmptyPublicAddress
            } else {
                e == AddressError::PublicAddressWithoutScheme && !has_web_scheme(
                    normalized(raw@),
                )
            },
        },
{
    let trimmed = trim_then_strip(raw.as_str(), '/');
    if trimmed.unicode_len() == 0 {
        return Err(AddressError::EmptyPublicAddress);
    }
    proof {
        reveal_strlit("http://");
        reveal_strlit("https://");
        assert("http://"@ =~= http_scheme());
        assert("https://"@ =~= https_scheme());
    }
    if !starts_with(trimmed.as_str(), "http://") && !starts_with(trimmed.as_str(), "https://") {
        return Err(AddressError::PublicAddressWithoutScheme);
    }
    Ok(trimmed)
}

/// Normalises `LOCAL_DEPLOY_MANAGEMENT_ADDRESS`: it must be non-empty once
/// normalised.
pub fn normalize_management_address(raw: String) -> (r: Result<String, AddressError>)
    ensures
        match r {
            Ok(a) => a@ == normalized(raw@) && a@.len() > 0,
            Err(e) => e == AddressError::EmptyManagementAddress && normalized(raw@).len() == 0,
        },
{
    let trimmed = trim_then_strip(raw.as_str(), '/');
    if trimmed.unicode_len() == 0 {
        return Err(AddressError::EmptyManagementAddress);
    }
    Ok(trimmed)
}

/// A normalised address does not end with `/`, does not begin with
/// whitespace, and is no longer than what it came from.
pub proof fn lemma_normalized_shape(raw: Seq<char>)
    ensures
        normalized(raw).len() > 0 ==> normalized(raw).last() != '/',
        normalized(raw).len() > 0 ==> !is_whitespace(normalized(raw)[0]),
        normalized(raw).len() <= raw.len(),
{
    let ks = crate::text::lemma_trim_start_suffix(raw);
    let u = crate::text::trim_start(raw);
    let ke = crate::text::lemma_trim_end_prefix(u);
    let t = trim(raw);
    let kc = crate::text::lemma_strip_trailing_prefix(t, '/');
    if normalized(raw).len() > 0 {
        assert(normalized(raw)[0] == t[0]);
        assert(t[0] == u[0]);
        assert(u[0] == raw[ks]);
    }
}

/// The trailing slash is optional: an address written with one more `/` at
/// its end normalises to the same address. (Where the address ends with
/// whitespace, the `/` after it is not trailing once trimmed, and this does
/// not hold: `"a /"` gives `"a "` where `"a "` gives `"a"`.)
pub proof fn lemma_trailing_slash_optional(s: Seq<char>)
    requires
        s.len() > 0 ==> !is_whitespace(s.last()),
    ensures
        normalized(s.push('/')) == normalized(s),
{
    let t = s.push('/');
    let ks = crate::text::lemma_trim_start_suffix(s);
    let kt = crate::text::lemma_trim_start_suffix(t);
    assert(!is_whitespace('/'));
    if ks < s.len() {
        // The same leading whitespace is removed from both.
        assert(kt == ks) by {
            if kt < ks {
                assert(t[kt] == s[kt]);
            } else if kt > ks {
                assert(is_whitespace(t[ks]));
                assert(t[ks] == s[ks]);
            }
        }
        let u = s.subrange(ks, s.len() as int);
        assert(t.subrange(kt, t.len() as int) =~= u.push('/'));
        assert(u.last() == s.last());
        assert(trim_end(u.push('/')) == u.push('/')) by {
            assert(u.push('/').last() == '/');
        }
        assert(trim_end(u) == u);
        assert(strip_trailing(u.push('/'), '/') == strip_trailing(u, '/')) by {
            assert(u.push('/').drop_last() =~= u);
        }
    } else {
        // Nothing but whitespace: both normalise to nothing.
        assert(kt == s.len()) by {
            if kt < s.len() {
                assert(t[kt] == s[kt]);
            }
        }
        assert(t.subrange(kt, t.len() as int) =~= seq!['/']);
        assert(s.subrange(ks, s.len() as int) =~= Seq::<char>::empty());
        assert(seq!['/'].drop_last() =~= Seq::<char>::empty());
        assert(trim_end(seq!['/']) == seq!['/']) by {
            assert(seq!['/'].last() == '/');
        }
    }
}

/// Normalising again changes nothing, for an address whose normal form does
/// not end with whitespace. (`"a/ /"` normalises to `"a/ "`, which normalises
/// to `"a"`.)
pub proof fn lemma_normalize_idempotent(raw: Seq<char>)
    requires
        normalized(raw).len() > 0 ==> !is_whitespace(normalized(raw).last()),
    ensures
        normalized(normalized(raw)) == normalized(raw),
{
    let n = normalized(raw);
    lemma_normalized_shape(raw);
    crate::text::lemma_trim_of_trimmed(n);
    crate::text::lemma_strip_of_stripped(n, '/');
}

/// The scheme check accepts exactly the texts that begin with `http://` or
/// `https://`, whatever follows the scheme (a name, an IP address, a port).
pub proof fn lemma_web_scheme_is_prefix(s: Seq<char>)
    ensures
        has_web_scheme(s) <==> ((s.len() >= 7 && s.subrange(0, 7) == seq![
            'h',
            't',
            't',
            'p',
            ':',
            '/',
            '/',
        ]) || (s.len() >= 8 && s.subrange(0, 8) == seq!['h', 't', 't', 'p', 's', ':', '/', '/'])),
{
}

/// Every public address that, once normalised, begins with `http://` or
/// `https://` is accepted, and normalises to that text.
pub proof fn lemma_scheme_addresses_accepted(raw: Seq<char>)
    requires
        ({
            let n = normalized(raw);
            (n.len() >= 7 && n.subrange(0, 7) == seq!['h', 't', 't', 'p', ':', '/', '/']) || (n.len()
                >= 8 && n.subrange(0, 8) == seq!['h', 't', 't', 'p', 's', ':', '/', '/'])
        }),
    ensures
        normalized(raw).len() > 0,
        has_web_scheme(normalized(raw)),
{
    lemma_web_scheme_is_prefix(normalized(raw));
}

} // verus!
