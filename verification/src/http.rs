//! Certified reads: the paths under which chunks and whole files are served,
//! and the responses to them.

use crate::keys::{chunk_key, chunk_key_of};
use crate::storage::{assembled, witness_bytes, Storage};
use crate::text::{
    chars_of, first_at, is_first_at, lemma_first_at, parse_u32, parse_u32_of, quote_base64,
    quoted_base64, split, split_chars, starts_with, texts_of,
};
use vstd::prelude::*;
use vstd::string::StrSliceExecFns;

verus! {

/// What a path asks for.
pub enum Target {
    /// The whole file with this id.
    Download(Seq<char>),
    /// One chunk of the file with this id.
    Chunk(Seq<char>, u32),
    /// Nothing that is served.
    Unmatched,
}

/// What a path asks for.
#[derive(Debug, PartialEq, Eq)]
pub enum ReadTarget {
    /// The whole file `file_id`.
    Download { file_id: String },
    /// Chunk `index` of the file `file_id`.
    Chunk { file_id: String, index: u32 },
    /// Nothing that is served.
    Unmatched,
}

impl View for ReadTarget {
    type V = Target;

    open spec fn view(&self) -> Target {
        match self {
            ReadTarget::Download { file_id } => Target::Download(file_id@),
            ReadTarget::Chunk { file_id, index } => Target::Chunk(file_id@, *index),
            ReadTarget::Unmatched => Target::Unmatched,
        }
    }
}

/// What stands before the first question mark of `rest`.
pub open spec fn route_part(rest: Seq<char>) -> Seq<char> {
    rest.take(first_at(rest, '?'))
}

/// What stands behind the first question mark of `rest`: nothing where
/// there is none.
pub open spec fn query_part(rest: Seq<char>) -> Seq<char> {
    let k = first_at(rest, '?');
    if 0 <= k < rest.len() {
        rest.skip(k + 1)
    } else {
        Seq::empty()
    }
}

/// The chunk index that one piece of a query gives: the piece has to be
/// `chunk`, an equals sign, and a number with no further equals sign.
pub open spec fn chunk_value(piece: Seq<char>) -> Option<u32> {
    let sides = split(piece, '=');
    if sides.len() == 2 && sides[0] == "chunk"@ {
        parse_u32_of(sides[1])
    } else {
        None
    }
}

/// The chunk index that the pieces of a query give: that of the last piece
/// that gives one, and none where no piece does.
pub open spec fn chunk_index_in(pieces: Seq<Seq<char>>) -> Option<u32>
    decreases pieces.len(),
{
    if pieces.len() == 0 {
        None
    } else {
        match chunk_value(pieces.last()) {
            Some(index) => Some(index),
            None => chunk_index_in(pieces.drop_last()),
        }
    }
}

/// The chunk index that `query` gives, its pieces being separated by `&`.
pub open spec fn chunk_index(query: Seq<char>) -> Option<u32> {
    chunk_index_in(split(query, '&'))
}

/// `route` without the `/download` it ends in.
pub open spec fn download_id(route: Seq<char>) -> Seq<char> {
    route.take(route.len() - "/download"@.len())
}

/// What the path `url` asks for. A path is served if it starts with
/// `/file/`. What follows, up to the first question mark, is the route, and
/// what stands behind that mark is the query. A route that ends in
/// `/download` asks for the whole file whose id is the route without that
/// one ending. Any other route is itself a file id, and asks for the chunk
/// that the query names; where the query names none, nothing is asked for
/// that is served.
pub open spec fn target_of(url: Seq<char>) -> Target {
    if "/file/"@.is_prefix_of(url) {
        let rest = url.skip("/file/"@.len() as int);
        let route = route_part(rest);
        if "/download"@.is_suffix_of(route) {
            Target::Download(download_id(route))
        } else {
            match chunk_index(query_part(rest)) {
                Some(index) => Target::Chunk(route, index),
                None => Target::Unmatched,
            }
        }
    } else {
        Target::Unmatched
    }
}

/// Whether two texts are the same.
fn chars_equal(a: &Vec<char>, b: &Vec<char>) -> (r: bool)
    ensures
        r == (a@ == b@),
{
    if a.len() != b.len() {
        return false;
    }
    let mut i: usize = 0;
    while i < a.len()
        invariant
            i <= a.len(),
            a.len() == b.len(),
            forall|j: int| 0 <= j < i ==> a@[j] == b@[j],
        decreases a.len() - i,
    {
        if a[i] != b[i] {
            return false;
        }
        i += 1;
    }
    assert(a@ =~= b@);
    true
}

/// Whether the characters `from..to` of `s` end with `suffix`.
fn window_ends_with(s: &Vec<char>, from: usize, to: usize, suffix: &Vec<char>) -> (r: bool)
    requires
        from <= to <= s.len(),
    ensures
        r == suffix@.is_suffix_of(s@.subrange(from as int, to as int)),
{
    if suffix.len() > to - from {
        return false;
    }
    let at: usize = to - suffix.len();
    let ghost window = s@.subrange(from as int, to as int);
    let ghost tail = window.subrange(window.len() - suffix@.len(), window.len() as int);
    let mut i: usize = 0;
    while i < suffix.len()
        invariant
            i <= suffix.len(),
            from <= at,
            at + suffix.len() == to <= s.len(),
            window == s@.subrange(from as int, to as int),
            tail == window.subrange(window.len() - suffix@.len(), window.len() as int),
            forall|j: int| 0 <= j < i ==> suffix@[j] == s@[at + j],
        decreases suffix.len() - i,
    {
        if suffix[i] != s[at + i] {
            assert(tail[i as int] == s@[at + i]);
            return false;
        }
        i += 1;
    }
    assert(suffix@ =~= tail);
    true
}

/// The chunk index that the piece `piece` of a query gives.
fn chunk_value_of(piece: &Vec<char>) -> (r: Option<u32>)
    ensures
        r == chunk_value(piece@),
{
    let sides = split_chars(piece, '=');
    if sides.len() != 2 {
        return None;
    }
    let word = chars_of("chunk");
    if !chars_equal(&sides[0], &word) {
        return None;
    }
    parse_u32(&sides[1])
}

/// The chunk index that `query` gives.
fn chunk_index_of(query: &Vec<char>) -> (index: Option<u32>)
    ensures
        index == chunk_index(query@),
{
    let pieces = split_chars(query, '&');
    let mut index: Option<u32> = None;
    let mut i: usize = 0;
    assert(texts_of(pieces@).take(0) =~= Seq::<Seq<char>>::empty());
    while i < pieces.len()
        invariant
            i <= pieces.len(),
            index == chunk_index_in(texts_of(pieces@).take(i as int)),
        decreases pieces.len() - i,
    {
        proof {
            let upto = texts_of(pieces@).take(i + 1);
            assert(upto.drop_last() =~= texts_of(pieces@).take(i as int));
            assert(upto.last() == pieces@[i as int]@);
        }
        match chunk_value_of(&pieces[i]) {
            Some(v) => {
                index = Some(v);
            },
            None => {},
        }
        i += 1;
    }
    assert(texts_of(pieces@).take(pieces@.len() as int) =~= texts_of(pieces@));
    index
}

/// What the path `url` asks for.
pub fn parse_path(url: &str) -> (target: ReadTarget)
    ensures
        target@ == target_of(url@),
{
    let chars = chars_of(url);
    let prefix = chars_of("/file/");
    let ending = chars_of("/download");
    proof {
        reveal_strlit("/file/");
        reveal_strlit("/download");
    }
    if !starts_with(&chars, &prefix) {
        return ReadTarget::Unmatched;
    }
    let ghost rest = chars@.skip(6);
    let mut mark: usize = 6;
    while mark < chars.len() && chars[mark] != '?'
        invariant
            6 <= mark <= chars.len(),
            forall|j: int| 6 <= j < mark ==> chars@[j] != '?',
        decreases chars.len() - mark,
    {
        mark += 1;
    }
    proof {
        assert(is_first_at(rest, '?', mark - 6));
        lemma_first_at(rest, '?', mark - 6);
        assert(route_part(rest) =~= chars@.subrange(6, mark as int));
    }
    let ghost route = chars@.subrange(6, mark as int);
    if window_ends_with(&chars, 6, mark, &ending) {
        assert(download_id(route) =~= chars@.subrange(6, mark - 9));
        let file_id = url.substring_char(6, mark - 9).to_owned();
        ReadTarget::Download { file_id }
    } else {
        let mut query: Vec<char> = Vec::new();
        if mark < chars.len() {
            let mut i: usize = mark + 1;
            while i < chars.len()
                invariant
                    mark < i <= chars.len(),
                    query@ == chars@.subrange(mark + 1, i as int),
                decreases chars.len() - i,
            {
                query.push(chars[i]);
                assert(query@ =~= chars@.subrange(mark + 1, i + 1));
                i += 1;
            }
            assert(query@ =~= rest.skip(mark - 6 + 1));
        }
        assert(query@ =~= query_part(rest));
        match chunk_index_of(&query) {
            Some(index) => {
                let file_id = url.substring_char(6, mark).to_owned();
                ReadTarget::Chunk { file_id, index }
            },
            None => ReadTarget::Unmatched,
        }
    }
}

/// A response to a read.
#[derive(Debug, PartialEq, Eq)]
pub struct HttpResponse {
    pub status_code: u16,
    pub headers: Vec<(String, String)>,
    pub body: Vec<u8>,
}

/// What an `HttpResponse` holds.
pub struct HttpResponseView {
    pub status_code: u16,
    pub headers: Seq<(Seq<char>, Seq<char>)>,
    pub body: Seq<u8>,
}

/// The headers of a list, each as the characters of its name and value.
pub open spec fn header_views(headers: Seq<(String, String)>) -> Seq<(Seq<char>, Seq<char>)> {
    Seq::new(headers.len(), |i: int| (headers[i].0@, headers[i].1@))
}

impl View for HttpResponse {
    type V = HttpResponseView;

    open spec fn view(&self) -> HttpResponseView {
        HttpResponseView {
            status_code: self.status_code,
            headers: header_views(self.headers@),
            body: self.body@,
        }
    }
}

/// The bytes of `not found`.
pub open spec fn not_found_body() -> Seq<u8> {
    seq![0x6eu8, 0x6fu8, 0x74u8, 0x20u8, 0x66u8, 0x6fu8, 0x75u8, 0x6eu8, 0x64u8]
}

/// The response to a read of what is not there: status 404, no header.
pub open spec fn not_found() -> HttpResponseView {
    HttpResponseView { status_code: 404, headers: Seq::empty(), body: not_found_body() }
}

/// The header that carries the host's certificate for the certified digest,
/// where the host gave one.
pub open spec fn certificate_headers(certificate: Option<Seq<u8>>) -> Seq<(Seq<char>, Seq<char>)> {
    match certificate {
        Some(bytes) => seq![("IC-Certificate"@, quoted_base64("certificate"@, bytes))],
        None => Seq::empty(),
    }
}

/// The response of the service `storage` to a read of `url`, the host
/// having given `certificate` for the certified digest. A file is served
/// whole, as its chunks one after the other, if all of them are stored. A
/// chunk is served with the certificate and with the ledger's witness for
/// its key. Everything else is not found.
pub open spec fn response_to(storage: Storage, url: Seq<char>, certificate: Option<Seq<u8>>) -> HttpResponseView {
    match target_of(url) {
        Target::Download(file_id) => match assembled(storage@, file_id) {
            Some(bytes) => HttpResponseView {
                status_code: 200,
                headers: seq![("Content-Type"@, "application/octet-stream"@)],
                body: bytes,
            },
            None => not_found(),
        },
        Target::Chunk(file_id, index) => if storage@.chunks.contains_key((file_id, index)) {
            HttpResponseView {
                status_code: 200,
                headers: certificate_headers(certificate).push(
                    (
                        "IC-Certificate"@,
                        quoted_base64(
                            "tree"@,
                            witness_bytes(storage.witness_of(chunk_key_of(file_id, index))),
                        ),
                    ),
                ),
                body: storage@.chunks[(file_id, index)].data,
            }
        } else {
            not_found()
        },
        Target::Unmatched => not_found(),
    }
}

/// The response to a read of what is not there.
fn respond_not_found() -> (r: HttpResponse)
    ensures
        r@ == not_found(),
{
    let mut body: Vec<u8> = Vec::new();
    body.push(0x6e);
    body.push(0x6f);
    body.push(0x74);
    body.push(0x20);
    body.push(0x66);
    body.push(0x6f);
    body.push(0x75);
    body.push(0x6e);
    body.push(0x64);
    assert(body@ =~= not_found_body());
    let r = HttpResponse { status_code: 404, headers: Vec::new(), body };
    assert(r@.headers =~= Seq::empty());
    r
}

/// Serves a read of `url` from `storage`. `certificate` is what the host
/// gives for the certified digest, if it gives anything.
pub fn http_request(storage: &Storage, url: &str, certificate: Option<Vec<u8>>) -> (r:
    HttpResponse)
    ensures
        r@ == response_to(
            *storage,
            url@,
            match certificate {
                Some(bytes) => Some(bytes@),
                None => None,
            },
        ),
{
    let mut headers: Vec<(String, String)> = Vec::new();
    match &certificate {
        Some(bytes) => {
            headers.push(
                ("IC-Certificate".to_owned(), quote_base64("certificate", bytes.as_slice())),
            );
        },
        None => {},
    }
    let ghost given = match certificate {
        Some(bytes) => Some(bytes@),
        None => None,
    };
    assert(header_views(headers@) =~= certificate_headers(given));
    match parse_path(url) {
        ReadTarget::Download { file_id } => match storage.assemble_file(file_id.as_str()) {
            Some(body) => {
                let mut plain: Vec<(String, String)> = Vec::new();
                plain.push(("Content-Type".to_owned(), "application/octet-stream".to_owned()));
                assert(header_views(plain@) =~= seq![
                    ("Content-Type"@, "application/octet-stream"@),
                ]);
                HttpResponse { status_code: 200, headers: plain, body }
            },
            None => respond_not_found(),
        },
        ReadTarget::Chunk { file_id, index } => match storage.get_chunk(file_id.as_str(), index) {
            Some(chunk) => {
                let key = chunk_key(file_id.as_str(), index);
                let witness = storage.witness(key.as_slice());
                let ghost before = header_views(headers@);
                let tree = quote_base64("tree", witness.as_slice());
                headers.push(("IC-Certificate".to_owned(), tree));
                assert(header_views(headers@) =~= before.push(("IC-Certificate"@, tree@)));
                HttpResponse { status_code: 200, headers, body: chunk.data }
            },
            None => respond_not_found(),
        },
        ReadTarget::Unmatched => respond_not_found(),
    }
}

} // verus!
