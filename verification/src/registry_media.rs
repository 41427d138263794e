//! Media files: uploaded in numbered chunks, put together when the upload
//! finishes, and served back in slices or over HTTP.
use vstd::prelude::*;
use vstd::utf8::*;
use crate::codec::{fields, parse_fields, views, encode_fields, decode_fields, lemma_fields_roundtrip,
    fields_fit, to_vec, extend, bytes_eq};
use crate::registry::{ChronoError, ErrView, Registry, RegistryView, MediaUpload, UploadView,
    chunk_views, opt_bytes_view, res_text, res_bytes, res_u32, log_spec, id_spec, ids_room,
    lemma_ascii_log, lemma_decimal_ascii, text_ok, text_key, as_raw, as_upload, lemma_registry_keys,
    lemma_text_key_valid, upload_bytes, upload_of, chunk_bytes, chunk_of, invalid_input,
    text_table_ok, filled, lemma_filled_bound, lemma_filled_update, lemma_filled_none, upload_ok,
    uploads_ok};
use crate::registry_auth::{auth_spec, key_name_for};
use crate::stable::{ByteTable, byte_table_contents, byte_table_get, byte_table_insert, byte_table_remove};
use crate::tables::{decoded, lemma_decoded_insert, lemma_decoded_remove, u32_of, u32_bytes,
    lemma_numbers_roundtrip, encode_u32, decode_u32};
use crate::text::{decimal, push_decimal, push_str, principal_text, principal_to_text, string_bytes,
    text_eq};

verus! {

/// The whole file, if every chunk came.
pub open spec fn joined(c: Seq<Option<Seq<u8>>>) -> Option<Seq<u8>>
    decreases c.len(),
{
    if c.len() == 0 {
        Some(Seq::empty())
    } else {
        match (joined(c.drop_last()), c.last()) {
            (Some(a), Some(b)) => Some(a + b),
            _ => None,
        }
    }
}

/// The largest chunk taken: 2 MiB.
pub open spec fn max_chunk() -> nat {
    2 * 1024 * 1024
}

/// The largest file kept: 10 MiB.
pub open spec fn max_file() -> nat {
    10 * 1024 * 1024
}

pub open spec fn fresh_upload(total: u32) -> UploadView {
    UploadView { total, received: 0, chunks: Seq::new(total as nat, |i: int| None::<Seq<u8>>) }
}

/// What `start_media_upload` does.
pub open spec fn start_upload_spec(v: RegistryView, caller: Seq<u8>, total: u32, now: u64) -> (RegistryView, Result<Seq<char>, ErrView>) {
    let (v1, a) = auth_spec(v, caller, now);
    match a {
        Err(e) => (v1, Err(e)),
        Ok(_) => {
            let (v2, id) = id_spec(v1, now);
            let v3 = RegistryView { uploads: v2.uploads.insert(id, fresh_upload(total)), ..v2 };
            (
                log_spec(
                    v3,
                    "Started media upload: "@ + id + " ("@ + decimal(total as nat) + " chunks)"@,
                    now,
                ),
                Ok(id),
            )
        },
    }
}

/// What `upload_media_chunk` does: a chunk of at most 2 MiB goes into a
/// free slot of an upload under way; its length comes back.
pub open spec fn chunk_spec(v: RegistryView, caller: Seq<u8>, media_id: Seq<char>, index: u32, chunk: Seq<u8>, now: u64) -> (RegistryView, Result<u32, ErrView>) {
    let (v1, a) = auth_spec(v, caller, now);
    match a {
        Err(e) => (v1, Err(e)),
        Ok(_) => if chunk.len() > max_chunk() {
            (v1, Err(ErrView::InvalidInput("Chunk size exceeds 2MB"@)))
        } else if !v1.uploads.contains_key(media_id) {
            (v1, Err(ErrView::InvalidInput("Invalid media_id for chunk upload"@)))
        } else if index >= v1.uploads[media_id].total {
            (v1, Err(ErrView::InvalidInput("Invalid chunk index"@)))
        } else if v1.uploads[media_id].chunks[index as int] is Some {
            (v1, Err(ErrView::InvalidInput("Chunk already uploaded"@)))
        } else {
            let u = v1.uploads[media_id];
            let u2 = UploadView {
                chunks: u.chunks.update(index as int, Some(chunk)),
                received: (u.received + 1) as u32,
                ..u
            };
            (RegistryView { uploads: v1.uploads.insert(media_id, u2), ..v1 }, Ok(chunk.len() as u32))
        },
    }
}

/// Where a finished file is served: on the local network
/// `http://<canister>.localhost:4943`, elsewhere
/// `https://<canister>.raw.ic0.app`, then `/media/<id>`.
pub open spec fn media_url(network: Option<Seq<char>>, canister: Seq<u8>, id: Seq<char>) -> Seq<char> {
    let base = if network == Some("local"@) {
        "http://"@ + principal_text(canister) + ".localhost:4943"@
    } else {
        "https://"@ + principal_text(canister) + ".raw.ic0.app"@
    };
    base + "/media/"@ + id
}

/// What `finish_media_upload` does: the upload is taken out; if every chunk
/// came and the file is at most 10 MiB it is kept under the upload's id and
/// its address comes back.
pub open spec fn finish_spec(v: RegistryView, caller: Seq<u8>, media_id: Seq<char>, canister: Seq<u8>, now: u64) -> (RegistryView, Result<Seq<char>, ErrView>) {
    let (v1, a) = auth_spec(v, caller, now);
    match a {
        Err(e) => (v1, Err(e)),
        Ok(_) => if !v1.uploads.contains_key(media_id) {
            (v1, Err(ErrView::InvalidInput("Invalid media_id for finish"@)))
        } else {
            let u = v1.uploads[media_id];
            let v2 = RegistryView { uploads: v1.uploads.remove(media_id), ..v1 };
            if u.received != u.total {
                (
                    v2,
                    Err(
                        ErrView::InvalidInput(
                            "Not all chunks uploaded: "@ + decimal(u.received as nat) + "/"@
                                + decimal(u.total as nat),
                        ),
                    ),
                )
            } else {
                match joined(u.chunks) {
                    None => (v2, Err(ErrView::InvalidInput("Missing chunk in upload"@))),
                    Some(data) => if data.len() > max_file() {
                        (v2, Err(ErrView::InvalidInput("File size exceeds maximum of 10485760 bytes"@)))
                    } else {
                        let v3 = RegistryView { media: v2.media.insert(media_id, data), ..v2 };
                        (
                            log_spec(v3, "Finished media upload: "@ + media_id, now),
                            Ok(media_url(v.network, canister, media_id)),
                        )
                    },
                }
            }
        },
    }
}

/// The slice of a file asked for: from `offset`, `length` bytes or up to the
/// end; empty from the end on.
pub open spec fn chunk_of_file(data: Seq<u8>, offset: u32, length: u32) -> Seq<u8> {
    if offset >= data.len() {
        Seq::empty()
    } else if offset + length >= data.len() {
        data.subrange(offset as int, data.len() as int)
    } else {
        data.subrange(offset as int, offset + length)
    }
}

/// Once a prefix of the chunks lacks one, the whole does.
pub proof fn lemma_joined_prefix_none(c: Seq<Option<Seq<u8>>>, i: int)
    requires
        0 <= i <= c.len(),
        joined(c.subrange(0, i)) is None,
    ensures
        joined(c) is None,
    decreases c.len(),
{
    if i == c.len() {
        assert(c.subrange(0, i) =~= c);
    } else {
        assert(c.drop_last().subrange(0, i) =~= c.subrange(0, i));
        lemma_joined_prefix_none(c.drop_last(), i);
    }
}

/// A media file looked up by the bytes of its id.
pub open spec fn media_by_bytes(media: Map<Seq<char>, Seq<u8>>, b: Seq<u8>) -> Option<Seq<u8>> {
    if valid_utf8(b) && media.contains_key(decode_utf8(b)) {
        Some(media[decode_utf8(b)])
    } else {
        None
    }
}

/// Where the query part of a URL starts: the first `?`, or the end.
pub open spec fn query_start(u: Seq<u8>, i: nat) -> nat
    decreases u.len() - i,
{
    if i >= u.len() {
        u.len()
    } else if u[i as int] == 63 {
        i
    } else {
        query_start(u, i + 1)
    }
}

/// The path of a URL: what comes before the first `?`.
pub open spec fn url_path(u: Seq<u8>) -> Seq<u8> {
    u.subrange(0, query_start(u, 0) as int)
}

pub open spec fn media_prefix() -> Seq<u8> {
    encode_utf8("/media/"@)
}

/// An HTTP request to the collection.
#[derive(Clone, Debug)]
pub struct HttpRequest {
    pub method: String,
    pub url: String,
    pub headers: Vec<(String, String)>,
    pub body: Vec<u8>,
}

/// The collection's answer to an HTTP request.
#[derive(Clone, Debug)]
pub struct HttpResponse {
    pub status_code: u16,
    pub headers: Vec<(String, String)>,
    pub body: Vec<u8>,
}

/// What `http_request` answers: only `GET`; a path `/media/<id>` serves the
/// file as `application/octet-stream`; anything else is not found.
pub open spec fn http_spec(media: Map<Seq<char>, Seq<u8>>, method: Seq<char>, url: Seq<char>) -> (u16, Seq<(Seq<char>, Seq<char>)>, Seq<u8>) {
    let path = url_path(encode_utf8(url));
    if method != "GET"@ {
        (405, Seq::empty(), encode_utf8("Method not allowed"@))
    } else if path.len() >= 7 && path.subrange(0, 7) == media_prefix() {
        match media_by_bytes(media, path.subrange(7, path.len() as int)) {
            Some(data) => (200, seq![("Content-Type"@, "application/octet-stream"@)], data),
            None => (404, Seq::empty(), encode_utf8("Media not found"@)),
        }
    } else {
        (404, Seq::empty(), encode_utf8("Not found"@))
    }
}

pub open spec fn header_views(h: Seq<(String, String)>) -> Seq<(Seq<char>, Seq<char>)> {
    h.map_values(|p: (String, String)| (p.0@, p.1@))
}

pub proof fn lemma_upload_roundtrip(u: UploadView)
    requires
        forall|i: int| 0 <= i < u.chunks.len() ==> (#[trigger] chunk_bytes(u.chunks[i])).len()
            < 0x1_0000_0000_0000_0000,
    ensures
        upload_of(upload_bytes(u)) == u,
{
    let l = seq![u32_bytes(u.total), u32_bytes(u.received)] + u.chunks.map_values(
        |c: Option<Seq<u8>>| chunk_bytes(c),
    );
    lemma_numbers_roundtrip(0, 0, u.total);
    lemma_numbers_roundtrip(0, 0, u.received);
    assert(fields_fit(l)) by {
        assert forall|i: int| 0 <= i < l.len() implies #[trigger] l[i].len() < 0x1_0000_0000_0000_0000 by {
            if i >= 2 {
                assert(l[i] == chunk_bytes(u.chunks[i - 2]));
            }
        }
    }
    lemma_fields_roundtrip(l);
    let back = l.skip(2).map_values(|x: Seq<u8>| chunk_of(x));
    assert forall|i: int| 0 <= i < u.chunks.len() implies #[trigger] back[i] == u.chunks[i] by {
        match u.chunks[i] {
            Some(d) => {
                assert((seq![1u8] + d).drop_first() =~= d);
            },
            None => {},
        }
    }
    assert(back =~= u.chunks);
}

/// The stored form of an upload.
fn encode_upload(u: &MediaUpload) -> (r: Vec<u8>)
    ensures
        r@ == upload_bytes(u@),
        upload_of(r@) == u@,
{
    let mut parts: Vec<Vec<u8>> = Vec::new();
    parts.push(encode_u32(u.total_chunks));
    parts.push(encode_u32(u.received_chunks));
    let ghost cv = chunk_views(u.chunks@);
    let mut i: usize = 0;
    while i < u.chunks.len()
        invariant
            i <= u.chunks@.len(),
            cv == chunk_views(u.chunks@),
            parts@.len() == i + 2,
            parts@[0]@ == u32_bytes(u.total_chunks),
            parts@[1]@ == u32_bytes(u.received_chunks),
            forall|j: int| 0 <= j < i ==> #[trigger] parts@[j + 2]@ == chunk_bytes(cv[j]),
            forall|j: int| 0 <= j < i ==> (#[trigger] parts@[j + 2])@.len() < 0x1_0000_0000_0000_0000,
        decreases u.chunks@.len() - i,
    {
        let mut b: Vec<u8> = Vec::new();
        match &u.chunks[i] {
            Some(d) => {
                b.push(1);
                extend(&mut b, d.as_slice());
            },
            None => {
                b.push(0);
            },
        }
        assert(b@ =~= chunk_bytes(cv[i as int]));
        let n = b.len();
        parts.push(b);
        i = i + 1;
    }
    let r = encode_fields(&parts);
    proof {
        let want = seq![u32_bytes(u.total_chunks), u32_bytes(u.received_chunks)]
            + cv.map_values(|c: Option<Seq<u8>>| chunk_bytes(c));
        assert(views(parts@).len() == want.len());
        assert forall|j: int| 0 <= j < want.len() implies #[trigger] views(parts@)[j] == want[j] by {
            if j >= 2 {
                assert(parts@[(j - 2) + 2]@ == chunk_bytes(cv[j - 2]));
            }
        }
        assert(views(parts@) =~= want);
        assert forall|j: int| 0 <= j < cv.len() implies (#[trigger] chunk_bytes(cv[j])).len()
            < 0x1_0000_0000_0000_0000 by {
            assert(parts@[j + 2]@ == chunk_bytes(cv[j]));
        }
        lemma_upload_roundtrip(u@);
    }
    r
}

impl Registry {
    /// The upload under way with this id, if any.
    pub fn upload_at(&self, id: &str) -> (r: Option<MediaUpload>)
        ensures
            match r {
                Some(u) => self@.uploads.contains_key(id@) && u@ == self@.uploads[id@],
                None => !self@.uploads.contains_key(id@),
            },
    {
        let key = string_bytes(id);
        proof {
            lemma_registry_keys();
        }
        match byte_table_get(&self.uploads, &key) {
            Some(b) => Some(decode_upload(b.as_slice())),
            None => None,
        }
    }

    /// Stores an upload under an ASCII id.
    fn set_upload(&mut self, id: &str, u: &MediaUpload)
        requires
            old(self).wf(),
            is_ascii_chars(id@),
            upload_ok(u@),
        ensures
            final(self)@ == (RegistryView { uploads: old(self)@.uploads.insert(id@, u@), ..old(self)@ }),
            final(self).wf(),
    {
        let key = string_bytes(id);
        let value = encode_upload(u);
        proof {
            lemma_registry_keys();
            lemma_text_key_valid(id@);
            lemma_decoded_insert(
                byte_table_contents(self.uploads),
                text_ok(),
                text_key(),
                as_upload(),
                id@,
                value@,
            );
        }
        byte_table_insert(&mut self.uploads, key, value);
        assert(self@ =~= RegistryView { uploads: old(self)@.uploads.insert(id@, u@), ..old(self)@ });
    }

    /// Takes an upload out.
    fn remove_upload(&mut self, id: &str)
        requires
            old(self).wf(),
        ensures
            final(self)@ == (RegistryView { uploads: old(self)@.uploads.remove(id@), ..old(self)@ }),
            final(self).wf(),
    {
        let key = string_bytes(id);
        proof {
            lemma_registry_keys();
            lemma_decoded_remove(byte_table_contents(self.uploads), text_ok(), text_key(), as_upload(), id@);
        }
        byte_table_remove(&mut self.uploads, &key);
        assert(self@ =~= RegistryView { uploads: old(self)@.uploads.remove(id@), ..old(self)@ });
    }

    /// Stores a finished file.
    fn set_media(&mut self, id: &str, data: Vec<u8>)
        requires
            old(self).wf(),
        ensures
            final(self)@ == (RegistryView { media: old(self)@.media.insert(id@, data@), ..old(self)@ }),
            final(self).wf(),
    {
        let key = string_bytes(id);
        let ghost d = data@;
        proof {
            lemma_registry_keys();
            lemma_text_key_valid(id@);
            lemma_decoded_insert(
                byte_table_contents(self.media_files),
                text_ok(),
                text_key(),
                as_raw(),
                id@,
                d,
            );
        }
        byte_table_insert(&mut self.media_files, key, data);
        assert(self@ =~= RegistryView { media: old(self)@.media.insert(id@, d), ..old(self)@ });
    }

    /// Starts an upload of `total_chunks` chunks and gives its id
    /// (`start_media_upload`).
    pub fn start_media_upload(&mut self, caller: &Vec<u8>, total_chunks: u32, now: u64) -> (r: Result<String, ChronoError>)
        requires
            old(self).wf(),
            caller@.len() <= 29,
            ids_room(old(self)@, 2),
        ensures
            (final(self)@, res_text(r)) == start_upload_spec(old(self)@, caller@, total_chunks, now),
            final(self).wf(),
    {
        match self.validate_caller_authentication(caller, now) {
            Err(e) => {
                return Err(e);
            },
            Ok(_) => {},
        }
        let id = self.generate_unique_id(now);
        let chunks = empty_chunks(total_chunks);
        let u = MediaUpload { total_chunks, received_chunks: 0, chunks };
        proof {
            lemma_filled_none(total_chunks as nat);
            assert(u@ == fresh_upload(total_chunks));
        }
        self.set_upload(id.as_str(), &u);
        let mut text = String::new();
        push_str(&mut text, "Started media upload: ");
        push_str(&mut text, id.as_str());
        push_str(&mut text, " (");
        push_decimal(&mut text, total_chunks as u128);
        push_str(&mut text, " chunks)");
        proof {
            reveal_strlit("Started media upload: ");
            reveal_strlit(" (");
            reveal_strlit(" chunks)");
            lemma_decimal_ascii(total_chunks as nat);
            assert(is_ascii_chars(text@));
            lemma_ascii_log(text@);
        }
        self.log_activity(text, now);
        Ok(id)
    }

    /// Puts one chunk into an upload under way and gives its length
    /// (`upload_media_chunk`).
    pub fn upload_media_chunk(&mut self, caller: &Vec<u8>, media_id: &String, chunk_index: u32, chunk: Vec<u8>, now: u64) -> (r: Result<u32, ChronoError>)
        requires
            old(self).wf(),
            caller@.len() <= 29,
            ids_room(old(self)@, 1),
        ensures
            (final(self)@, res_u32(r)) == chunk_spec(old(self)@, caller@, media_id@, chunk_index, chunk@, now),
            final(self).wf(),
    {
        match self.validate_caller_authentication(caller, now) {
            Err(e) => {
                return Err(e);
            },
            Ok(_) => {},
        }
        if chunk.len() > 2 * 1024 * 1024 {
            return Err(invalid_input("Chunk size exceeds 2MB"));
        }
        let chunk_len = chunk.len() as u32;
        let mut entry = match self.upload_at(media_id.as_str()) {
            Some(u) => u,
            None => {
                return Err(invalid_input("Invalid media_id for chunk upload"));
            },
        };
        if chunk_index >= entry.total_chunks {
            return Err(invalid_input("Invalid chunk index"));
        }
        let idx = chunk_index as usize;
        assert(upload_ok(entry@));
        assert(entry@.chunks[idx as int] == opt_bytes_view(entry.chunks@[idx as int]));
        if entry.chunks[idx].is_some() {
            return Err(invalid_input("Chunk already uploaded"));
        }
        let ghost old_chunks = entry@.chunks;
        let ghost data = chunk@;
        proof {
            lemma_filled_bound(old_chunks);
            lemma_filled_update(old_chunks, idx as int, data);
        }
        entry.chunks.set(idx, Some(chunk));
        entry.received_chunks = entry.received_chunks + 1;
        assert(entry@.chunks =~= old_chunks.update(idx as int, Some(data)));
        self.set_upload(media_id.as_str(), &entry);
        Ok(chunk_len)
    }

    /// Finishes an upload: the upload is taken out and, if whole, kept as a
    /// file whose address is given (`finish_media_upload`).
    pub fn finish_media_upload(&mut self, caller: &Vec<u8>, media_id: &String, canister: &Vec<u8>, now: u64) -> (r: Result<String, ChronoError>)
        requires
            old(self).wf(),
            caller@.len() <= 29,
            canister@.len() <= 29,
            ids_room(old(self)@, 1),
        ensures
            (final(self)@, res_text(r)) == finish_spec(old(self)@, caller@, media_id@, canister@, now),
            final(self).wf(),
    {
        match self.validate_caller_authentication(caller, now) {
            Err(e) => {
                return Err(e);
            },
            Ok(_) => {},
        }
        let u = match self.upload_at(media_id.as_str()) {
            Some(u) => u,
            None => {
                return Err(invalid_input("Invalid media_id for finish"));
            },
        };
        self.remove_upload(media_id.as_str());
        if u.received_chunks != u.total_chunks {
            let mut m = String::new();
            push_str(&mut m, "Not all chunks uploaded: ");
            push_decimal(&mut m, u.received_chunks as u128);
            push_str(&mut m, "/");
            push_decimal(&mut m, u.total_chunks as u128);
            return Err(ChronoError::InvalidInput(m));
        }
        let data = match join_chunks(&u.chunks) {
            Some(d) => d,
            None => {
                return Err(invalid_input("Missing chunk in upload"));
            },
        };
        if data.len() > 10 * 1024 * 1024 {
            return Err(invalid_input("File size exceeds maximum of 10485760 bytes"));
        }
        self.set_media(media_id.as_str(), data);
        let mut url = String::new();
        let local = match &self.network {
            Some(n) => text_eq(n.as_str(), "local"),
            None => false,
        };
        if local {
            push_str(&mut url, "http://");
            let t = principal_to_text(canister.as_slice());
            push_str(&mut url, t.as_str());
            push_str(&mut url, ".localhost:4943");
        } else {
            push_str(&mut url, "https://");
            let t = principal_to_text(canister.as_slice());
            push_str(&mut url, t.as_str());
            push_str(&mut url, ".raw.ic0.app");
        }
        push_str(&mut url, "/media/");
        push_str(&mut url, media_id.as_str());
        let mut text = String::new();
        push_str(&mut text, "Finished media upload: ");
        push_str(&mut text, media_id.as_str());
        proof {
            reveal_strlit("Finished media upload: ");
            assert(is_ascii_chars(text@));
            lemma_ascii_log(text@);
        }
        self.log_activity(text, now);
        Ok(url)
    }

    /// A slice of a finished file (`get_media_chunk`).
    pub fn get_media_chunk(&self, media_id: &String, offset: u32, length: u32) -> (r: Result<Vec<u8>, ChronoError>)
        ensures
            res_bytes(r) == if self@.media.contains_key(media_id@) {
                Ok::<Seq<u8>, ErrView>(chunk_of_file(self@.media[media_id@], offset, length))
            } else {
                Err::<Seq<u8>, ErrView>(ErrView::TokenNotFound)
            },
    {
        let key = string_bytes(media_id.as_str());
        proof {
            lemma_registry_keys();
        }
        match byte_table_get(&self.media_files, &key) {
            Some(data) => {
                let n = data.len() as u64;
                let start = offset as u64;
                let stop = if start + length as u64 >= n {
                    n
                } else {
                    start + length as u64
                };
                if start >= n {
                    return Ok(Vec::new());
                }
                let mut out: Vec<u8> = Vec::new();
                let mut i = start as usize;
                while i < stop as usize
                    invariant
                        start <= i <= stop <= n == data@.len(),
                        out@ == data@.subrange(start as int, i as int),
                    decreases stop - i,
                {
                    out.push(data[i]);
                    i = i + 1;
                    assert(out@ =~= data@.subrange(start as int, i as int));
                }
                Ok(out)
            },
            None => Err(ChronoError::TokenNotFound),
        }
    }

    /// Answers an HTTP request (`http_request`).
    pub fn http_request(&self, request: &HttpRequest) -> (r: HttpResponse)
        requires
            self.wf(),
        ensures
            (r.status_code, header_views(r.headers@), r.body@) == http_spec(self@.media, request.method@, request.url@),
    {
        serve_media(&self.media_files, request)
    }
}

/// Answers an HTTP request from a table of media files: `GET /media/<id>`
/// serves the file.
pub fn serve_media(media: &ByteTable, request: &HttpRequest) -> (r: HttpResponse)
requires
    text_table_ok(byte_table_contents(*media)),
ensures
    (r.status_code, header_views(r.headers@), r.body@) == http_spec(
        decoded(byte_table_contents(*media), text_ok(), text_key(), as_raw()),
        request.method@,
        request.url@,
    ),
{
    let none: Vec<(String, String)> = Vec::new();
    assert(header_views(none@) =~= Seq::<(Seq<char>, Seq<char>)>::empty());
    if !text_eq(request.method.as_str(), "GET") {
        return HttpResponse { status_code: 405, headers: none, body: string_bytes("Method not allowed") };
    }
    let u = request.url.as_str().as_bytes();
    let mut q: usize = 0;
    while q < u.len() && u[q] != 63
        invariant
            q <= u@.len(),
            query_start(u@, 0) == query_start(u@, q as nat),
        decreases u@.len() - q,
    {
        q = q + 1;
    }
    let path = crate::codec::prefix(u, q);
    let mp = "/media/".as_bytes();
    proof {
        reveal_strlit("/media/");
    }
    let starts = path.len() >= 7 && bytes_eq(crate::codec::prefix(path.as_slice(), 7).as_slice(), mp);
    if starts {
        let mut id: Vec<u8> = Vec::new();
        let mut k: usize = 7;
        while k < path.len()
            invariant
                7 <= k <= path@.len(),
                id@ == path@.subrange(7, k as int),
            decreases path@.len() - k,
        {
            id.push(path[k]);
            k = k + 1;
            assert(id@ =~= path@.subrange(7, k as int));
        }
        let ghost raw = byte_table_contents(*media);
        match byte_table_get(media, &id) {
            Some(data) => {
                proof {
                    assert(raw.contains_key(id@));
                    decode_utf8_encode_utf8(id@);
                    lemma_registry_keys();
                    assert(decoded(raw, text_ok(), text_key(), as_raw()).contains_key(decode_utf8(id@)));
                }
                let mut headers: Vec<(String, String)> = Vec::new();
                headers.push((String::from_str("Content-Type"), String::from_str("application/octet-stream")));
                assert(header_views(headers@) =~= seq![("Content-Type"@, "application/octet-stream"@)]);
                HttpResponse { status_code: 200, headers, body: data }
            },
            None => {
                proof {
                    if valid_utf8(id@) {
                        decode_utf8_encode_utf8(id@);
                    }
                }
                HttpResponse { status_code: 404, headers: none, body: string_bytes("Media not found") }
            },
        }
    } else {
        HttpResponse { status_code: 404, headers: none, body: string_bytes("Not found") }
    }
}

/// As many empty chunk slots as asked for.
fn empty_chunks(n: u32) -> (r: Vec<Option<Vec<u8>>>)
    ensures
        chunk_views(r@) == Seq::new(n as nat, |j: int| None::<Seq<u8>>),
{
    let mut chunks: Vec<Option<Vec<u8>>> = Vec::new();
    let mut i: u32 = 0;
    while i < n
        invariant
            i <= n,
            chunk_views(chunks@) == Seq::new(i as nat, |j: int| None::<Seq<u8>>),
        decreases n - i,
    {
        let ghost before = chunk_views(chunks@);
        chunks.push(None);
        assert(chunk_views(chunks@) =~= before.push(None));
        i = i + 1;
        assert(chunk_views(chunks@) =~= Seq::new(i as nat, |j: int| None::<Seq<u8>>));
    }
    chunks
}

/// The chunks put together, if all came.
fn join_chunks(chunks: &Vec<Option<Vec<u8>>>) -> (r: Option<Vec<u8>>)
    ensures
        match r {
            Some(d) => joined(chunk_views(chunks@)) == Some(d@),
            None => joined(chunk_views(chunks@)) is None,
        },
{
    let ghost cv = chunk_views(chunks@);
    let mut data: Vec<u8> = Vec::new();
    let mut i: usize = 0;
    assert(cv.subrange(0, 0) =~= Seq::<Option<Seq<u8>>>::empty());
    while i < chunks.len()
        invariant
            i <= chunks@.len(),
            cv == chunk_views(chunks@),
            joined(cv.subrange(0, i as int)) == Some(data@),
        decreases chunks@.len() - i,
    {
        let ghost next = cv.subrange(0, i + 1);
        assert(next.drop_last() =~= cv.subrange(0, i as int));
        assert(next.last() == opt_bytes_view(chunks@[i as int]));
        match &chunks[i] {
            Some(c) => {
                extend(&mut data, c.as_slice());
            },
            None => {
                proof {
                    lemma_joined_prefix_none(cv, i + 1);
                }
                return None;
            },
        }
        i = i + 1;
    }
    assert(cv.subrange(0, chunks@.len() as int) =~= cv);
    Some(data)
}

/// The upload that stored bytes hold.
pub(crate) fn decode_upload(b: &[u8]) -> (r: MediaUpload)
    ensures
        r@ == upload_of(b@),
{
    match decode_fields(b) {
        Some(l) => {
            if l.len() >= 2 {
                let total = decode_u32(l[0].as_slice());
                let received = decode_u32(l[1].as_slice());
                let mut chunks: Vec<Option<Vec<u8>>> = Vec::new();
                let mut i: usize = 2;
                let ghost want = views(l@).skip(2).map_values(|x: Seq<u8>| chunk_of(x));
                while i < l.len()
                    invariant
                        2 <= i <= l@.len(),
                        want == views(l@).skip(2).map_values(|x: Seq<u8>| chunk_of(x)),
                        chunks@.len() == i - 2,
                        forall|j: int| 0 <= j < i - 2 ==> #[trigger] opt_bytes_view(chunks@[j]) == want[j],
                    decreases l@.len() - i,
                {
                    let x = &l[i];
                    assert(want[i - 2] == chunk_of(x@));
                    if x.len() > 0 && x[0] == 1 {
                        let mut d: Vec<u8> = Vec::new();
                        let mut k: usize = 1;
                        while k < x.len()
                            invariant
                                1 <= k <= x@.len(),
                                d@ == x@.subrange(1, k as int),
                            decreases x@.len() - k,
                        {
                            d.push(x[k]);
                            k = k + 1;
                            assert(d@ =~= x@.subrange(1, k as int));
                        }
                        assert(d@ =~= x@.drop_first());
                        chunks.push(Some(d));
                    } else {
                        chunks.push(None);
                    }
                    i = i + 1;
                }
                let r = MediaUpload { total_chunks: total, received_chunks: received, chunks };
                assert(r@.chunks =~= want);
                assert(views(l@)[0] == l@[0]@ && views(l@)[1] == l@[1]@);
                r
            } else {
                let r = MediaUpload { total_chunks: 0, received_chunks: 0, chunks: Vec::new() };
                assert(r@.chunks =~= Seq::<Option<Seq<u8>>>::empty());
                r
            }
        },
        None => {
            let r = MediaUpload { total_chunks: 0, received_chunks: 0, chunks: Vec::new() };
            assert(r@.chunks =~= Seq::<Option<Seq<u8>>>::empty());
            r
        },
    }
}

} // verus!
