//! Share links: `opoc://<service>.onion/s/<file_id>#<key_b64url>`.
//!
//! The link carries everything a downloader needs: where the file is served
//! (the onion host), which file (its UUID) and how to decrypt it (the key, in
//! the fragment, which is never sent to the server).

use vstd::prelude::*;
use crate::base64url::{b64url, lemma_b64url_alphabet, url_safe_char};
use crate::crypto::{b64url_decoded, key_from_b64url, key_to_b64url, lemma_b64url_roundtrip, CryptoError, FileId, FileKey};
use crate::share::Share;
use crate::ids::{file_id_to_string, lemma_uuid_text_chars, parse_file_id, uuid_parsed, uuid_text};
use crate::text::{chars_eq, ends_with, push_chars, str_chars, string_from_chars};

verus! {

/// What the logic reads of a parsed URL: its scheme, host, path segments and
/// fragment, as `url::Url` reports them.
pub struct UrlParts {
    pub scheme: String,
    pub host: Option<String>,
    pub path_segments: Option<Vec<String>>,
    pub fragment: Option<String>,
}

/// The parts of a URL as character sequences.
pub type UrlPartsView = (Seq<char>, Option<Seq<char>>, Option<Seq<Seq<char>>>, Option<Seq<char>>);

pub open spec fn opt_view(s: Option<String>) -> Option<Seq<char>> {
    match s {
        Some(x) => Some(x@),
        None => None,
    }
}

pub open spec fn opt_deep_view(s: Option<Vec<String>>) -> Option<Seq<Seq<char>>> {
    match s {
        Some(x) => Some(x.deep_view()),
        None => None,
    }
}

impl View for UrlParts {
    type V = UrlPartsView;

    open spec fn view(&self) -> UrlPartsView {
        (self.scheme@, opt_view(self.host), opt_deep_view(self.path_segments), opt_view(self.fragment))
    }
}

#[verifier::external_type_specification]
#[verifier::external_body]
pub struct ExUrlParseError(url::ParseError);

/// The scheme, host, path segments and fragment that `url::Url::parse`
/// finds in `s`, if it accepts `s`.
pub uninterp spec fn url_components(s: Seq<char>) -> Option<UrlPartsView>;

/// Letters, digits, `.`, `-`, `_` and `~`: characters an opaque host keeps
/// as they are.
pub open spec fn host_char(c: char) -> bool {
    ('a' <= c && c <= 'z') || ('A' <= c && c <= 'Z') || ('0' <= c && c <= '9') || c == '.' || c == '-'
        || c == '_' || c == '~'
}

/// Lower-case letters, digits and `-`.
pub open spec fn segment_char(c: char) -> bool {
    ('a' <= c && c <= 'z') || ('0' <= c && c <= '9') || c == '-'
}

/// The URL `opoc://<host>/<a>/<b>#<f>`.
pub open spec fn opoc_url(host: Seq<char>, a: Seq<char>, b: Seq<char>, f: Seq<char>) -> Seq<char> {
    "opoc://"@ + host + "/"@ + a + "/"@ + b + "#"@ + f
}

/// Whether the pieces of an `opoc_url` are non-empty and written only with
/// characters that URL parsing leaves as they are: `host_char` in the host,
/// `segment_char` in the two path segments, `url_safe_char` in the fragment.
pub open spec fn plain_pieces(host: Seq<char>, a: Seq<char>, b: Seq<char>, f: Seq<char>) -> bool {
    &&& host.len() > 0 && a.len() > 0 && b.len() > 0 && f.len() > 0
    &&& forall|i: int| 0 <= i < host.len() ==> host_char(#[trigger] host[i])
    &&& forall|i: int| 0 <= i < a.len() ==> segment_char(#[trigger] a[i])
    &&& forall|i: int| 0 <= i < b.len() ==> segment_char(#[trigger] b[i])
    &&& forall|i: int| 0 <= i < f.len() ==> url_safe_char(#[trigger] f[i])
}

/// Calls `url::Url::parse` and reads `scheme`, `host_str`, `path_segments`
/// and `fragment` of the result; what comes back is named `url_components`.
/// The contract also claims what the parser's source shows for the plain
/// shape of a share link: `opoc://<host>/<a>/<b>#<f>` with plain pieces (no
/// `@`, `:`, `%`, `?`, `#`, `/`, white space or dot segment where it would
/// matter) parses with an opaque host, and every piece comes back unchanged,
/// as long as the text fits the parser's 32-bit offsets (at most `u32::MAX`
/// bytes; beyond that it fails with `Overflow`).
#[verifier::external_body]
fn parse_url(s: &str) -> (r: Result<UrlParts, url::ParseError>)
    ensures
        r matches Ok(p) ==> url_components(s@) == Some(p@),
        r is Err ==> url_components(s@) is None,
        forall|h: Seq<char>, a: Seq<char>, b: Seq<char>, f: Seq<char>|
            #![trigger opoc_url(h, a, b, f)]
            s@ == opoc_url(h, a, b, f) && plain_pieces(h, a, b, f) && s@.len() <= u32::MAX
                ==> r is Ok && r->Ok_0@ == ("opoc"@, Some(h), Some(seq![a, b]), Some(f)),
{
    let u = url::Url::parse(s)?;
    Ok(UrlParts {
        scheme: u.scheme().to_string(),
        host: u.host_str().map(|h| h.to_string()),
        path_segments: u.path_segments().map(|p| p.map(|x| x.to_string()).collect()),
        fragment: u.fragment().map(|f| f.to_string()),
    })
}

/// Why a text is not a share link.
#[derive(Debug, Clone, Copy, PartialEq, Eq, Structural)]
pub enum LinkError {
    /// Not a URL at all.
    InvalidUrl,
    /// The scheme is not `opoc`.
    WrongScheme,
    /// The URL has no host.
    MissingHost,
    /// The host does not end in `.onion`.
    NotOnion,
    /// The URL has no path.
    MissingPath,
    /// The path is not `/s/<file_id>`.
    BadPath,
    /// The file id is not a UUID.
    InvalidFileId,
    /// The URL has no `#<key>` fragment.
    MissingKey,
    /// The fragment is not a base64url key.
    InvalidKey(CryptoError),
}

/// A link to one shared file.
#[derive(Clone, Debug)]
pub struct ShareLink {
    /// `"<id>.onion"`
    pub onion: String,
    pub file_id: FileId,
    pub key: FileKey,
}

/// The text of a share link.
pub open spec fn share_link_text(onion: Seq<char>, file_id: Seq<u8>, key: Seq<u8>) -> Seq<char> {
    "opoc://"@ + onion + "/s/"@ + uuid_text(file_id) + "#"@ + b64url(key)
}

/// What a share link is read from the parts of its URL: the onion host, the
/// file id bytes and the key bytes, or the first check that fails.
pub open spec fn link_from_parts(p: UrlPartsView) -> Result<(Seq<char>, Seq<u8>, Seq<u8>), LinkError> {
    if p.0 != "opoc"@ {
        Err(LinkError::WrongScheme)
    } else if p.1 is None {
        Err(LinkError::MissingHost)
    } else if !(".onion"@.len() <= p.1->0.len() && p.1->0.skip(p.1->0.len() - ".onion"@.len()) == ".onion"@) {
        Err(LinkError::NotOnion)
    } else if p.2 is None {
        Err(LinkError::MissingPath)
    } else if !(p.2->0.len() == 2 && p.2->0[0] == "s"@) {
        Err(LinkError::BadPath)
    } else if uuid_parsed(p.2->0[1]) is None {
        Err(LinkError::InvalidFileId)
    } else if p.3 is None {
        Err(LinkError::MissingKey)
    } else {
        match b64url_decoded(p.3->0) {
            None => Err(LinkError::InvalidKey(CryptoError::InvalidBase64)),
            Some(k) => if k.len() == 32 {
                Ok((p.1->0, uuid_parsed(p.2->0[1])->0, k))
            } else {
                Err(LinkError::InvalidKey(CryptoError::InvalidKeyLength))
            },
        }
    }
}

/// Whether `o` can stand as the host of a share link: plain host
/// characters, ending in `.onion`.
pub open spec fn onion_host(o: Seq<char>) -> bool {
    &&& ".onion"@.len() <= o.len()
    &&& o.skip(o.len() - ".onion"@.len()) == ".onion"@
    &&& forall|i: int| 0 <= i < o.len() ==> host_char(#[trigger] o[i])
}

/// The URL parts of the share link for host `o`, file `id` and key `k`.
pub open spec fn link_parts(o: Seq<char>, id: Seq<u8>, k: Seq<u8>) -> UrlPartsView {
    ("opoc"@, Some(o), Some(seq!["s"@, uuid_text(id)]), Some(b64url(k)))
}

/// Whether a link result matches its specification.
pub open spec fn link_result_is(r: Result<ShareLink, LinkError>, s: Result<(Seq<char>, Seq<u8>, Seq<u8>), LinkError>) -> bool {
    match s {
        Ok(t) => r matches Ok(l) && l.onion@ == t.0 && l.file_id@ == t.1 && l.key@ == t.2,
        Err(e) => r == Err::<ShareLink, LinkError>(e),
    }
}

impl ShareLink {
    /// Format: `opoc://<service>.onion/s/<uuid>#<key_b64url>`.
    pub fn to_string(&self) -> (s: String)
        ensures
            s@ == share_link_text(self.onion@, self.file_id@, self.key@),
    {
        let mut out = str_chars("opoc://");
        push_chars(&mut out, &str_chars(self.onion.as_str()));
        push_chars(&mut out, &str_chars("/s/"));
        let id = file_id_to_string(&self.file_id);
        push_chars(&mut out, &str_chars(id.as_str()));
        push_chars(&mut out, &str_chars("#"));
        let k = key_to_b64url(&self.key);
        push_chars(&mut out, &str_chars(k.as_str()));
        string_from_chars(&out)
    }

    /// The link to `share` served at `onion`.
    pub fn for_share(onion: &String, share: &Share) -> (s: String)
        ensures
            s@ == share_link_text(onion@, share.file_id@, share.key@),
    {
        ShareLink { onion: onion.clone(), file_id: share.file_id, key: share.key }.to_string()
    }

    /// Reads a share link from the parts of its URL. The parts of a link
    /// to an onion host read back as that link.
    pub fn from_url_parts(p: &UrlParts) -> (r: Result<ShareLink, LinkError>)
        ensures
            link_result_is(r, link_from_parts(p@)),
            forall|o: Seq<char>, id: Seq<u8>, k: Seq<u8>|
                #![trigger link_parts(o, id, k)]
                p@ == link_parts(o, id, k) && ".onion"@.len() <= o.len()
                    && o.skip(o.len() - ".onion"@.len()) == ".onion"@ && id.len() == 16 && k.len() == 32
                    ==> (r matches Ok(l) && l.onion@ == o && l.file_id@ == id && l.key@ == k),
    {
        if !chars_eq(&str_chars(p.scheme.as_str()), &str_chars("opoc")) {
            return Err(LinkError::WrongScheme);
        }
        let host = match &p.host {
            Some(h) => h,
            None => {
                return Err(LinkError::MissingHost);
            }
        };
        if !ends_with(&str_chars(host.as_str()), &str_chars(".onion")) {
            return Err(LinkError::NotOnion);
        }
        let segs = match &p.path_segments {
            Some(s) => s,
            None => {
                return Err(LinkError::MissingPath);
            }
        };
        proof {
            assert(segs.deep_view().len() == segs@.len());
        }
        if segs.len() != 2 {
            return Err(LinkError::BadPath);
        }
        proof {
            assert(segs.deep_view()[0] == segs@[0]@);
            assert(segs.deep_view()[1] == segs@[1]@);
        }
        if !chars_eq(&str_chars(segs[0].as_str()), &str_chars("s")) {
            return Err(LinkError::BadPath);
        }
        let file_id = match parse_file_id(segs[1].as_str()) {
            Some(id) => id,
            None => {
                return Err(LinkError::InvalidFileId);
            }
        };
        let fragment = match &p.fragment {
            Some(f) => f,
            None => {
                return Err(LinkError::MissingKey);
            }
        };
        proof {
            assert forall|o: Seq<char>, id: Seq<u8>, k: Seq<u8>|
                #![trigger link_parts(o, id, k)]
                p@ == link_parts(o, id, k) && k.len() == 32 implies
                    fragment@ == b64url(k) && b64url_decoded(fragment@) == Some(k) by {
                lemma_b64url_roundtrip(k);
            }
        }
        let key = match key_from_b64url(fragment.as_str()) {
            Ok(k) => k,
            Err(e) => {
                return Err(LinkError::InvalidKey(e));
            }
        };
        Ok(ShareLink { onion: host.clone(), file_id, key })
    }

    /// Reads a share link from its text. The text `to_string` writes for a
    /// link to an onion host reads back as that link (when it is at most
    /// `u32::MAX` characters long: longer texts overflow the URL parser).
    pub fn parse(s: &str) -> (r: Result<ShareLink, LinkError>)
        ensures
            match url_components(s@) {
                None => r == Err::<ShareLink, LinkError>(LinkError::InvalidUrl),
                Some(p) => link_result_is(r, link_from_parts(p)),
            },
            forall|o: Seq<char>, id: Seq<u8>, k: Seq<u8>|
                #![trigger share_link_text(o, id, k)]
                s@ == share_link_text(o, id, k) && onion_host(o) && id.len() == 16 && k.len() == 32 && s@.len() <= u32::MAX
                    ==> (r matches Ok(l) && l.onion@ == o && l.file_id@ == id && l.key@ == k),
    {
        let pr = parse_url(s);
        match pr {
            Ok(p) => {
                let r = ShareLink::from_url_parts(&p);
                proof {
                    assert forall|o: Seq<char>, id: Seq<u8>, k: Seq<u8>|
                        #![trigger share_link_text(o, id, k)]
                        s@ == share_link_text(o, id, k) && onion_host(o) && id.len() == 16 && k.len() == 32 && s@.len() <= u32::MAX implies
                            (r matches Ok(l) && l.onion@ == o && l.file_id@ == id && l.key@ == k) by {
                        lemma_link_text_plain(o, id, k);
                        assert(p@ == link_parts(o, id, k));
                    }
                }
                r
            },
            Err(_) => {
                proof {
                    assert forall|o: Seq<char>, id: Seq<u8>, k: Seq<u8>|
                        #![trigger share_link_text(o, id, k)]
                        s@ == share_link_text(o, id, k) && onion_host(o) && id.len() == 16 && k.len() == 32 && s@.len() <= u32::MAX implies
                            false by {
                        lemma_link_text_plain(o, id, k);
                    }
                }
                Err(LinkError::InvalidUrl)
            },
        }
    }
}

/// The text of a share link to an onion host is a plain `opoc_url` whose
/// parts are the link's parts.
proof fn lemma_link_text_plain(o: Seq<char>, id: Seq<u8>, k: Seq<u8>)
    requires
        onion_host(o),
        id.len() == 16,
        k.len() == 32,
    ensures
        share_link_text(o, id, k) == opoc_url(o, "s"@, uuid_text(id), b64url(k)),
        plain_pieces(o, "s"@, uuid_text(id), b64url(k)),
        link_parts(o, id, k) == ("opoc"@, Some(o), Some(seq!["s"@, uuid_text(id)]), Some(b64url(k))),
{
    reveal_strlit("opoc://");
    reveal_strlit("/s/");
    reveal_strlit("/");
    reveal_strlit("s");
    reveal_strlit("#");
    reveal_strlit(".onion");
    assert("/s/"@ =~= "/"@ + "s"@ + "/"@);
    assert(share_link_text(o, id, k) =~= opoc_url(o, "s"@, uuid_text(id), b64url(k)));
    lemma_uuid_text_chars(id);
    lemma_b64url_alphabet(k);
    assert(segment_char('s'));
    assert(forall|i: int| 0 <= i < "s"@.len() ==> segment_char(#[trigger] "s"@[i]));
    assert forall|i: int| 0 <= i < uuid_text(id).len() implies segment_char(#[trigger] uuid_text(id)[i]) by {
        assert(crate::ids::uuid_char(uuid_text(id)[i]));
    }
}

} // verus!
