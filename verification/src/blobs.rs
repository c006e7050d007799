//! Files on their way: a file is announced with its name, size, type, digest
//! and a fresh key, and its bytes follow in sealed chunks. The receiver checks
//! the digest of what it put together.

use crate::bytes::{same_key, same_text};
use crate::crypto::{open, seal, CryptoError, VaultKey};
#[allow(unused_imports)]
use crate::crypto::opened;
#[allow(unused_imports)]
use crate::identity::sha256;
use crate::random::random_bytes;
use crate::sync::FileRef;
use sha2::{Digest, Sha256};
use vstd::prelude::*;

verus! {

/// The plaintext bytes of a chunk.
pub const CHUNK: usize = 64 * 1024;

/// Why a file could not be sent or received.
#[derive(Debug, PartialEq, Eq)]
pub enum BlobError {
    /// The text of an error of the operating system.
    Io(String),
    Crypto(CryptoError),
    /// The file is not the one that was announced.
    HashMismatch,
}

impl BlobError {
    /// The message for people.
    pub open spec fn text(self) -> Seq<char> {
        match self {
            BlobError::Io(e) => "io error: "@ + e@,
            BlobError::Crypto(e) => e.text(),
            BlobError::HashMismatch => "content hash mismatch: file is corrupt or truncated"@,
        }
    }

    /// The message for people.
    pub fn message(&self) -> (r: String)
        ensures
            r@ == self.text(),
    {
        match self {
            BlobError::Io(e) => "io error: ".to_owned().concat(e.as_str()),
            BlobError::Crypto(e) => e.message(),
            BlobError::HashMismatch => "content hash mismatch: file is corrupt or truncated".to_owned(),
        }
    }
}

/// What is announced of a file. The key is secret.
#[derive(Debug, Clone, PartialEq, Eq)]
pub struct FileMeta {
    pub transfer_id: [u8; 16],
    pub name: String,
    pub size: u64,
    pub mime: String,
    pub sha256: [u8; 32],
    pub key: [u8; 32],
}

impl FileMeta {
    /// What the conversation keeps of a file: everything but the key.
    pub fn file_ref(&self) -> (r: FileRef)
        ensures
            r == (FileRef {
                transfer_id: self.transfer_id,
                name: self.name,
                size: self.size,
                mime: self.mime,
                sha256: self.sha256,
            }),
    {
        FileRef {
            transfer_id: self.transfer_id,
            name: self.name.clone(),
            size: self.size,
            mime: self.mime.clone(),
            sha256: self.sha256,
        }
    }
}

/// A SHA-256 computation that takes its input piece by piece, in a
/// `sha2::Sha256`.
#[verifier::external_body]
pub struct RunningHash {
    inner: Sha256,
}

/// The input that was taken so far.
pub uninterp spec fn absorbed(hash: RunningHash) -> Seq<u8>;

impl RunningHash {
    /// `sha2::Sha256::new`: nothing was taken.
    #[verifier::external_body]
    fn new() -> (r: Self)
        ensures
            absorbed(r) == Seq::<u8>::empty(),
    {
        RunningHash { inner: Sha256::new() }
    }

    /// `Digest::update` of `sha2::Sha256`: takes more input.
    #[verifier::external_body]
    fn update(&mut self, bytes: &[u8])
        ensures
            absorbed(*final(self)) == absorbed(*old(self)) + bytes@,
    {
        self.inner.update(bytes);
    }

    /// `Digest::finalize` of `sha2::Sha256`: the digest of all input, the same
    /// as if it had been given at once.
    #[verifier::external_body]
    fn finish(self) -> (r: [u8; 32])
        ensures
            r@ == sha256(absorbed(self)),
    {
        self.inner.finalize().into()
    }
}

/// Digest and size of a file that is read piece by piece.
pub struct FileHash {
    hash: RunningHash,
    size: u64,
}

impl View for FileHash {
    type V = Seq<u8>;

    closed spec fn view(&self) -> Seq<u8> {
        absorbed(self.hash)
    }
}

impl FileHash {
    /// The size is that of what was read.
    #[verifier::type_invariant]
    pub closed spec fn inv(self) -> bool {
        self.size == absorbed(self.hash).len()
    }

    /// A file of which nothing was read.
    pub fn new() -> (r: Self)
        ensures
            r@ == Seq::<u8>::empty(),
    {
        FileHash { hash: RunningHash::new(), size: 0 }
    }

    /// Takes the next piece of the file.
    pub fn read(self, piece: &[u8]) -> (r: Self)
        requires
            self@.len() + piece@.len() <= u64::MAX,
        ensures
            r@ == self@ + piece@,
    {
        proof {
            use_type_invariant(&self);
        }
        let FileHash { hash, size } = self;
        let mut hash = hash;
        hash.update(piece);
        FileHash { hash, size: size + piece.len() as u64 }
    }

    /// The digest and the size of the file.
    pub fn finish(self) -> (r: ([u8; 32], u64))
        ensures
            r.0@ == sha256(self@),
            r.1 == self@.len(),
    {
        proof {
            use_type_invariant(&self);
        }
        let FileHash { hash, size } = self;
        (hash.finish(), size)
    }
}

/// A text in lower case.
pub uninterp spec fn lowercase(s: Seq<char>) -> Seq<char>;

/// `str::to_lowercase`: the named text.
#[verifier::external_body]
fn lowercase_of(s: &str) -> (r: String)
    ensures
        r@ == lowercase(s@),
{
    s.to_lowercase()
}

/// The media type of a file name extension in lower case.
pub open spec fn mime_type(ext: Seq<char>) -> Seq<char> {
    if ext == "png"@ {
        "image/png"@
    } else if ext == "jpg"@ || ext == "jpeg"@ {
        "image/jpeg"@
    } else if ext == "gif"@ {
        "image/gif"@
    } else if ext == "webp"@ {
        "image/webp"@
    } else if ext == "svg"@ {
        "image/svg+xml"@
    } else if ext == "pdf"@ {
        "application/pdf"@
    } else if ext == "txt"@ || ext == "md"@ {
        "text/plain"@
    } else if ext == "json"@ {
        "application/json"@
    } else if ext == "zip"@ {
        "application/zip"@
    } else if ext == "mp3"@ {
        "audio/mpeg"@
    } else if ext == "mp4"@ {
        "video/mp4"@
    } else if ext == "mov"@ {
        "video/quicktime"@
    } else {
        "application/octet-stream"@
    }
}

/// The media type of a file name extension in lower case.
pub fn mime_of(ext: &str) -> (r: String)
    ensures
        r@ == mime_type(ext@),
{
    if same_text(ext, "png") {
        "image/png".to_owned()
    } else if same_text(ext, "jpg") || same_text(ext, "jpeg") {
        "image/jpeg".to_owned()
    } else if same_text(ext, "gif") {
        "image/gif".to_owned()
    } else if same_text(ext, "webp") {
        "image/webp".to_owned()
    } else if same_text(ext, "svg") {
        "image/svg+xml".to_owned()
    } else if same_text(ext, "pdf") {
        "application/pdf".to_owned()
    } else if same_text(ext, "txt") || same_text(ext, "md") {
        "text/plain".to_owned()
    } else if same_text(ext, "json") {
        "application/json".to_owned()
    } else if same_text(ext, "zip") {
        "application/zip".to_owned()
    } else if same_text(ext, "mp3") {
        "audio/mpeg".to_owned()
    } else if same_text(ext, "mp4") {
        "video/mp4".to_owned()
    } else if same_text(ext, "mov") {
        "video/quicktime".to_owned()
    } else {
        "application/octet-stream".to_owned()
    }
}

/// The media type that an extension of any case stands for; a file without one
/// is treated like one with an unknown extension.
pub fn guess_mime(ext: Option<&str>) -> (r: String)
    ensures
        r@ == match ext {
            Some(e) => mime_type(lowercase(e@)),
            None => mime_type(Seq::empty()),
        },
{
    match ext {
        Some(e) => mime_of(lowercase_of(e).as_str()),
        None => {
            let none = String::new();
            mime_of(none.as_str())
        },
    }
}

/// What is announced of a file, with the given id and key. A file without a
/// name is called `file`.
pub fn file_meta(
    transfer_id: [u8; 16],
    key: [u8; 32],
    name: Option<&str>,
    ext: Option<&str>,
    sha256: [u8; 32],
    size: u64,
) -> (r: FileMeta)
    ensures
        r.transfer_id == transfer_id,
        r.key == key,
        r.name@ == match name {
            Some(n) => n@,
            None => "file"@,
        },
        r.mime@ == match ext {
            Some(e) => mime_type(lowercase(e@)),
            None => mime_type(Seq::empty()),
        },
        r.sha256 == sha256,
        r.size == size,
{
    let name = match name {
        Some(n) => n.to_owned(),
        None => "file".to_owned(),
    };
    FileMeta { transfer_id, name, size, mime: guess_mime(ext), sha256, key }
}

/// What is announced of a file, with a fresh id and key.
pub fn prepare(name: Option<&str>, ext: Option<&str>, sha256: [u8; 32], size: u64) -> (r: FileMeta)
    ensures
        r.name@ == match name {
            Some(n) => n@,
            None => "file"@,
        },
        r.mime@ == match ext {
            Some(e) => mime_type(lowercase(e@)),
            None => mime_type(Seq::empty()),
        },
        r.sha256 == sha256,
        r.size == size,
{
    file_meta(random_bytes::<16>(), random_bytes::<32>(), name, ext, sha256, size)
}

/// What to do after a read.
#[derive(Debug, Clone, Copy, PartialEq, Eq, Structural)]
pub enum Fill {
    /// Read on, at most this many bytes.
    More(usize),
    /// The buffer holds this many bytes.
    Done(usize),
}

/// What follows a read that gave `n` bytes, with `filled` bytes before it.
pub open spec fn fill_step(size: nat, filled: nat, n: nat) -> Fill {
    if n == 0 || filled + n == size {
        Fill::Done((filled + n) as usize)
    } else {
        Fill::More((size - filled - n) as usize)
    }
}

/// Reading until a buffer is full or the input ends.
pub struct ReadFill {
    pub size: usize,
    pub filled: usize,
}

impl ReadFill {
    /// Starts to fill a buffer.
    pub fn start(size: usize) -> (r: (Self, Fill))
        ensures
            r.0.size == size,
            r.0.filled == 0,
            r.1 == if size == 0 {
                Fill::Done(0)
            } else {
                Fill::More(size)
            },
    {
        let next = if size == 0 {
            Fill::Done(0)
        } else {
            Fill::More(size)
        };
        (ReadFill { size, filled: 0 }, next)
    }

    /// Takes in how many bytes a read gave. At the end of the input it gives
    /// none.
    pub fn on_read(&mut self, n: usize) -> (r: Fill)
        requires
            old(self).filled + n <= old(self).size,
        ensures
            final(self).size == old(self).size,
            final(self).filled == old(self).filled + n,
            r == fill_step(old(self).size as nat, old(self).filled as nat, n as nat),
    {
        self.filled = self.filled + n;
        if n == 0 || self.filled == self.size {
            Fill::Done(self.filled)
        } else {
            Fill::More(self.size - self.filled)
        }
    }
}

/// Seals the chunks of a file. The view is the key.
pub struct EncryptStream {
    key: VaultKey,
}

impl View for EncryptStream {
    type V = Seq<u8>;

    closed spec fn view(&self) -> Seq<u8> {
        self.key@
    }
}

impl EncryptStream {
    /// Starts to seal with a key.
    pub fn open(key: [u8; 32]) -> (r: Self)
        ensures
            r@ == key@,
    {
        EncryptStream { key: VaultKey::from(key) }
    }

    /// Seals the next chunk. There is none where nothing is left to read.
    pub fn next_chunk(&self, plain: &[u8]) -> (r: Option<Vec<u8>>)
        requires
            plain@.len() <= CHUNK,
        ensures
            match r {
                Some(chunk) => plain@.len() > 0 && opened(self@, chunk@) == Ok::<
                    Seq<u8>,
                    CryptoError,
                >(plain@),
                None => plain@.len() == 0,
            },
    {
        if plain.len() == 0 {
            return None;
        }
        Some(seal(&self.key, plain))
    }
}

/// A file that is being received, as a mathematical value: the key, and what
/// was put together so far.
pub ghost struct SinkModel {
    pub key: Seq<u8>,
    pub received: Seq<u8>,
}

/// Opens the chunks of a file and keeps track of its digest.
pub struct DecryptSink {
    key: VaultKey,
    hash: RunningHash,
}

impl View for DecryptSink {
    type V = SinkModel;

    closed spec fn view(&self) -> SinkModel {
        SinkModel { key: self.key@, received: absorbed(self.hash) }
    }
}

impl DecryptSink {
    /// Starts to receive a file.
    pub fn create(key: [u8; 32]) -> (r: Self)
        ensures
            r@ == (SinkModel { key: key@, received: Seq::empty() }),
    {
        DecryptSink { key: VaultKey::from(key), hash: RunningHash::new() }
    }

    /// Opens one chunk, which is then to be appended to the file.
    pub fn write_chunk(&mut self, ciphertext: &[u8]) -> (r: Result<Vec<u8>, BlobError>)
        ensures
            match r {
                Ok(plain) => {
                    &&& opened(old(self)@.key, ciphertext@) == Ok::<Seq<u8>, CryptoError>(plain@)
                    &&& final(self)@ == (SinkModel {
                        received: old(self)@.received + plain@,
                        ..old(self)@
                    })
                },
                Err(e) => {
                    &&& e matches BlobError::Crypto(c) && opened(old(self)@.key, ciphertext@)
                        == Err::<Seq<u8>, CryptoError>(c)
                    &&& final(self)@ == old(self)@
                },
            },
    {
        match open(&self.key, ciphertext) {
            Ok(plain) => {
                self.hash.update(plain.as_slice());
                Ok(plain)
            },
            Err(e) => Err(BlobError::Crypto(e)),
        }
    }

    /// Checks that what was received is what was announced.
    pub fn finish(self, expected_sha256: &[u8; 32]) -> (r: Result<(), BlobError>)
        ensures
            match r {
                Ok(()) => sha256(self@.received) == expected_sha256@,
                Err(e) => sha256(self@.received) != expected_sha256@ && e
                    == BlobError::HashMismatch,
            },
    {
        let DecryptSink { key: _, hash } = self;
        let got = hash.finish();
        if same_key(&got, expected_sha256) {
            Ok(())
        } else {
            proof {
                if got@ == expected_sha256@ {
                    assert(got =~= *expected_sha256);
                }
            }
            Err(BlobError::HashMismatch)
        }
    }
}

/// What a sink holds after opening chunks one after the other; nothing is said
/// where one of them cannot be opened.
pub open spec fn after_chunks(s: SinkModel, chunks: Seq<Seq<u8>>) -> Option<SinkModel>
    decreases chunks.len(),
{
    if chunks.len() == 0 {
        Some(s)
    } else {
        match after_chunks(s, chunks.drop_last()) {
            Some(t) => match opened(t.key, chunks.last()) {
                Ok(plain) => Some(SinkModel { received: t.received + plain, ..t }),
                Err(_) => None,
            },
            None => None,
        }
    }
}

/// The bytes of the next piece of a file of which so many are left.
pub open spec fn piece_len(left: nat) -> nat {
    if left < CHUNK {
        left
    } else {
        CHUNK as nat
    }
}

/// The pieces of a file, one for each chunk: of 65536 bytes each, and the last
/// one of what is left.
pub open spec fn pieces_of(file: Seq<u8>) -> Seq<Seq<u8>>
    decreases file.len(),
{
    if file.len() == 0 {
        Seq::empty()
    } else {
        let n = piece_len(file.len()) as int;
        seq![file.take(n)] + pieces_of(file.skip(n))
    }
}

/// A buffer takes what is there: filling it from an input of which so many bytes
/// are left ends when it holds all of them or is full, whatever the single reads
/// give. A read gives nothing only at the end of the input.
pub proof fn fill_takes_what_is_there(size: nat, left: nat, filled: nat, n: nat)
    requires
        filled < size <= usize::MAX,
        filled + n <= size,
        filled + n <= left,
        n == 0 ==> filled == left,
    ensures
        match fill_step(size, filled, n) {
            Fill::Done(held) => held == if left < size {
                left
            } else {
                size
            },
            Fill::More(room) => filled < filled + n < size && room == size - filled - n,
        },
{
}

/// The pieces of a file make up the file, there are as many as chunks of 65536
/// bytes are needed, none is empty, and only the last can be shorter.
pub proof fn pieces_make_up_the_file(file: Seq<u8>)
    ensures
        pieces_of(file).flatten() == file,
        pieces_of(file).len() == (file.len() + CHUNK - 1) / CHUNK as int,
        forall|i: int|
            0 <= i < pieces_of(file).len() ==> 0 < (#[trigger] pieces_of(file)[i]).len() <= CHUNK,
        forall|i: int|
            0 <= i < pieces_of(file).len() - 1 ==> (#[trigger] pieces_of(file)[i]).len() == CHUNK,
    decreases file.len(),
{
    let pieces = pieces_of(file);
    if file.len() > 0 {
        let n = piece_len(file.len()) as int;
        let rest = file.skip(n);
        pieces_make_up_the_file(rest);
        assert(pieces.drop_first() =~= pieces_of(rest));
        assert(pieces.first() == file.take(n));
        assert(file.take(n) + rest =~= file);
        assert forall|i: int| 0 < i < pieces.len() implies #[trigger] pieces[i] == pieces_of(
            rest,
        )[i - 1] by {}
    }
}

/// A file arrives whole: cut into pieces and sealed piece by piece under its key,
/// it takes as many chunks as it has pieces, all of them are opened, and what
/// they make up is the file.
pub proof fn whole_file_arrives(key: Seq<u8>, file: Seq<u8>, chunks: Seq<Seq<u8>>)
    requires
        chunks.len() == pieces_of(file).len(),
        forall|i: int|
            0 <= i < chunks.len() ==> opened(key, #[trigger] chunks[i]) == Ok::<
                Seq<u8>,
                CryptoError,
            >(pieces_of(file)[i]),
    ensures
        chunks.len() == (file.len() + CHUNK - 1) / CHUNK as int,
        after_chunks(SinkModel { key, received: Seq::empty() }, chunks) == Some(
            SinkModel { key, received: file },
        ),
{
    pieces_make_up_the_file(file);
    transfer_round_trip(key, pieces_of(file), chunks);
}

/// What was sealed is received: the chunks that the sender sealed under the key
/// of the file are opened by the receiver to the same pieces, put together in
/// their order.
pub proof fn transfer_round_trip(key: Seq<u8>, pieces: Seq<Seq<u8>>, chunks: Seq<Seq<u8>>)
    requires
        pieces.len() == chunks.len(),
        forall|i: int|
            0 <= i < chunks.len() ==> opened(key, #[trigger] chunks[i]) == Ok::<
                Seq<u8>,
                CryptoError,
            >(pieces[i]),
    ensures
        after_chunks(SinkModel { key, received: Seq::empty() }, chunks) == Some(
            SinkModel { key, received: pieces.flatten() },
        ),
    decreases pieces.len(),
{
    let s = SinkModel { key, received: Seq::empty() };
    if pieces.len() == 0 {
        assert(pieces.flatten() =~= Seq::<u8>::empty());
    } else {
        let p = pieces.drop_last();
        let c = chunks.drop_last();
        assert forall|i: int| 0 <= i < c.len() implies opened(key, #[trigger] c[i]) == Ok::<
            Seq<u8>,
            CryptoError,
        >(p[i]) by {
            assert(c[i] == chunks[i]);
        }
        transfer_round_trip(key, p, c);
        let n = pieces.len() - 1;
        assert(opened(key, chunks[n]) == Ok::<Seq<u8>, CryptoError>(pieces[n]));
        assert(pieces =~= p.push(pieces[n]));
        p.lemma_flatten_push(pieces[n]);
    }
}

/// A chunk that cannot be opened spoils the file, wherever it stands; where all
/// chunks are opened, all that is in them is received.
pub proof fn unopened_chunk_spoils_the_file(s: SinkModel, chunks: Seq<Seq<u8>>)
    ensures
        after_chunks(s, chunks) is Some <==> forall|i: int|
            0 <= i < chunks.len() ==> opened(s.key, #[trigger] chunks[i]) is Ok,
        after_chunks(s, chunks) is Some ==> after_chunks(s, chunks)->0.key == s.key
            && after_chunks(s, chunks)->0.received == s.received + Seq::new(
            chunks.len(),
            |i: int| opened(s.key, chunks[i])->Ok_0,
        ).flatten(),
    decreases chunks.len(),
{
    let plain = Seq::new(chunks.len(), |i: int| opened(s.key, chunks[i])->Ok_0);
    if chunks.len() == 0 {
        assert(plain =~= Seq::<Seq<u8>>::empty());
        assert(plain.flatten() =~= Seq::<u8>::empty());
        assert(s.received + plain.flatten() =~= s.received);
    } else {
        let init = chunks.drop_last();
        let n = chunks.len() - 1;
        let before = Seq::new(init.len(), |i: int| opened(s.key, init[i])->Ok_0);
        unopened_chunk_spoils_the_file(s, init);
        assert forall|i: int| 0 <= i < init.len() implies #[trigger] init[i] == chunks[i] by {}
        assert(chunks[n] == chunks.last());
        assert(plain =~= before.push(plain[n]));
        before.lemma_flatten_push(plain[n]);
        if after_chunks(s, chunks) is Some {
            assert(after_chunks(s, init) is Some);
            assert forall|i: int| 0 <= i < chunks.len() implies opened(
                s.key,
                #[trigger] chunks[i],
            ) is Ok by {
                if i < n {
                    assert(opened(s.key, init[i]) is Ok);
                }
            }
            assert(s.received + plain.flatten() =~= s.received + before.flatten() + plain[n]);
        } else if forall|i: int| 0 <= i < chunks.len() ==> opened(
            s.key,
            #[trigger] chunks[i],
        ) is Ok {
            assert forall|i: int| 0 <= i < init.len() implies opened(
                s.key,
                #[trigger] init[i],
            ) is Ok by {
                assert(opened(s.key, chunks[i]) is Ok);
            }
        }
    }
}

/// A chunk that was sealed from a piece of a file is opened under the same key to
/// that piece, which is put behind what was received before.
pub proof fn sealed_chunk_is_received(
    stream: &EncryptStream,
    sink: &mut DecryptSink,
    plain: &[u8],
    sent: &[u8],
    chunk: Option<Vec<u8>>,
    r: Result<Vec<u8>, BlobError>,
)
    requires
        plain@.len() > 0,
        call_ensures(EncryptStream::next_chunk, (stream, plain), chunk),
        chunk is Some ==> sent@ == chunk->0@,
        old(sink)@.key == stream@,
        call_ensures(DecryptSink::write_chunk, (sink, sent), r),
    ensures
        chunk is Some,
        r is Ok,
        r->Ok_0@ == plain@,
        final(sink)@.received == old(sink)@.received + plain@,
        final(sink)@.key == old(sink)@.key,
{
}

/// Every file has a media type, of the family that its extension belongs to;
/// what is not known is taken as plain bytes.
pub proof fn media_types_have_families(ext: Seq<char>)
    ensures
        ({
            let picture = ext == "png"@ || ext == "jpg"@ || ext == "jpeg"@ || ext == "gif"@ || ext
                == "webp"@ || ext == "svg"@;
            let written = ext == "txt"@ || ext == "md"@;
            let sound = ext == "mp3"@;
            let film = ext == "mp4"@ || ext == "mov"@;
            let known = ext == "pdf"@ || ext == "json"@ || ext == "zip"@;
            let t = mime_type(ext);
            &&& picture <==> "image/"@.is_prefix_of(t)
            &&& written <==> "text/"@.is_prefix_of(t)
            &&& sound <==> "audio/"@.is_prefix_of(t)
            &&& film <==> "video/"@.is_prefix_of(t)
            &&& !picture && !written && !sound && !film && !known <==> t
                == "application/octet-stream"@
            &&& known ==> "application/"@.is_prefix_of(t) && ext.is_suffix_of(t)
        }),
{
    reveal_strlit("png");
    reveal_strlit("jpg");
    reveal_strlit("jpeg");
    reveal_strlit("gif");
    reveal_strlit("webp");
    reveal_strlit("svg");
    reveal_strlit("pdf");
    reveal_strlit("txt");
    reveal_strlit("md");
    reveal_strlit("json");
    reveal_strlit("zip");
    reveal_strlit("mp3");
    reveal_strlit("mp4");
    reveal_strlit("mov");
    reveal_strlit("image/");
    reveal_strlit("text/");
    reveal_strlit("audio/");
    reveal_strlit("video/");
    reveal_strlit("application/");
    reveal_strlit("image/png");
    reveal_strlit("image/jpeg");
    reveal_strlit("image/gif");
    reveal_strlit("image/webp");
    reveal_strlit("image/svg+xml");
    reveal_strlit("application/pdf");
    reveal_strlit("text/plain");
    reveal_strlit("application/json");
    reveal_strlit("application/zip");
    reveal_strlit("audio/mpeg");
    reveal_strlit("video/mp4");
    reveal_strlit("video/quicktime");
    reveal_strlit("application/octet-stream");
    starts_with("image/png"@, "image/"@);
    starts_with("image/jpeg"@, "image/"@);
    starts_with("image/gif"@, "image/"@);
    starts_with("image/webp"@, "image/"@);
    starts_with("image/svg+xml"@, "image/"@);
    starts_with("text/plain"@, "text/"@);
    starts_with("audio/mpeg"@, "audio/"@);
    starts_with("video/mp4"@, "video/"@);
    starts_with("video/quicktime"@, "video/"@);
    starts_with("application/pdf"@, "application/"@);
    starts_with("application/json"@, "application/"@);
    starts_with("application/zip"@, "application/"@);
    assert("application/pdf"@.skip(12) =~= "pdf"@);
    assert("application/json"@.skip(12) =~= "json"@);
    assert("application/zip"@.skip(12) =~= "zip"@);
    let t = mime_type(ext);
    let plain = "application/octet-stream"@;
    assert("image/"@.is_prefix_of(t) ==> t[0] == 'i') by {
        assert("image/"@[0] == 'i');
    }
    assert("text/"@.is_prefix_of(t) ==> t[0] == 't') by {
        assert("text/"@[0] == 't');
    }
    assert("audio/"@.is_prefix_of(t) ==> t[1] == 'u') by {
        assert("audio/"@[1] == 'u');
    }
    assert("video/"@.is_prefix_of(t) ==> t[0] == 'v') by {
        assert("video/"@[0] == 'v');
    }
    assert(t == plain ==> t.len() == 24 && t[0] == 'a');
    assert(plain[0] == 'a' && plain[1] == 'p');
    assert("image/png"@[0] == 'i' && "image/jpeg"@[0] == 'i' && "image/gif"@[0] == 'i'
        && "image/webp"@[0] == 'i' && "image/svg+xml"@[0] == 'i');
    assert("text/plain"@[0] == 't' && "audio/mpeg"@[1] == 'u');
    assert("video/mp4"@[0] == 'v' && "video/quicktime"@[0] == 'v');
    assert("application/pdf"@[1] == 'p' && "application/json"@[1] == 'p' && "application/zip"@[1]
        == 'p');
    assert("application/pdf"@[0] == 'a' && "application/json"@[0] == 'a' && "application/zip"@[0]
        == 'a' && "audio/mpeg"@[0] == 'a');
    assert("png"@[0] == 'p' && "png"@[1] == 'n' && "png"@[2] == 'g');
    assert("jpg"@[0] == 'j' && "jpg"@[1] == 'p' && "jpg"@[2] == 'g');
    assert("jpeg"@[0] == 'j' && "jpeg"@[1] == 'p' && "jpeg"@[2] == 'e');
    assert("gif"@[0] == 'g' && "gif"@[1] == 'i' && "gif"@[2] == 'f');
    assert("webp"@[0] == 'w' && "webp"@[1] == 'e' && "webp"@[2] == 'b');
    assert("svg"@[0] == 's' && "svg"@[1] == 'v' && "svg"@[2] == 'g');
    assert("pdf"@[0] == 'p' && "pdf"@[1] == 'd' && "pdf"@[2] == 'f');
    assert("txt"@[0] == 't' && "txt"@[1] == 'x' && "txt"@[2] == 't');
    assert("md"@[0] == 'm' && "md"@[1] == 'd');
    assert("json"@[0] == 'j' && "json"@[1] == 's' && "json"@[2] == 'o');
    assert("zip"@[0] == 'z' && "zip"@[1] == 'i' && "zip"@[2] == 'p');
    assert("mp3"@[0] == 'm' && "mp3"@[1] == 'p' && "mp3"@[2] == '3');
    assert("mp4"@[0] == 'm' && "mp4"@[1] == 'p' && "mp4"@[2] == '4');
    assert("mov"@[0] == 'm' && "mov"@[1] == 'o' && "mov"@[2] == 'v');
}

/// A text that agrees with a beginning starts with it.
proof fn starts_with(t: Seq<char>, f: Seq<char>)
    requires
        f.len() <= t.len(),
        t.subrange(0, f.len() as int) =~= f,
    ensures
        f.is_prefix_of(t),
{
}

} // verus!
