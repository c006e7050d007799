//! The vault: named values that are sealed before they reach the disk.
//!
//! A vault is an ordered table of names and sealed blobs, which the program
//! around this library keeps on disk. The functions here say what is written to
//! the table and what is made of what was read.

use crate::bytes::push_bytes;
#[allow(unused_imports)]
use crate::bytes::{lex_lt, smaller_at};
use crate::crypto::{open, seal, CryptoError, VaultKey};
#[allow(unused_imports)]
use crate::crypto::{opened, sealable};
use crate::hexid::strip_prefix;
#[allow(unused_imports)]
use vstd::utf8::{decode_utf8, encode_utf8, valid_utf8};
use vstd::prelude::*;

verus! {

/// Why the vault could not be read or written.
#[derive(Debug, PartialEq, Eq)]
pub enum StoreError {
    /// The text of an error of the database.
    Db(String),
    Crypto(CryptoError),
    /// A value could not be encoded or decoded.
    Serde,
}

impl StoreError {
    /// The message for people.
    pub open spec fn text(self) -> Seq<char> {
        match self {
            StoreError::Db(e) => "database error: "@ + e@,
            StoreError::Crypto(e) => e.text(),
            StoreError::Serde => "serialization error"@,
        }
    }

    /// The message for people.
    pub fn message(&self) -> (r: String)
        ensures
            r@ == self.text(),
    {
        match self {
            StoreError::Db(e) => "database error: ".to_owned().concat(e.as_str()),
            StoreError::Crypto(e) => e.message(),
            StoreError::Serde => "serialization error".to_owned(),
        }
    }
}

/// A change of the table.
#[derive(Debug, PartialEq, Eq)]
pub enum VaultWrite {
    Put { name: String, bytes: Vec<u8> },
    Remove { name: String },
}

/// A change of the table as a mathematical value.
pub ghost enum WriteModel {
    Put { name: Seq<char>, bytes: Seq<u8> },
    Remove { name: Seq<char> },
}

impl View for VaultWrite {
    type V = WriteModel;

    open spec fn view(&self) -> WriteModel {
        match *self {
            VaultWrite::Put { name, bytes } => WriteModel::Put { name: name@, bytes: bytes@ },
            VaultWrite::Remove { name } => WriteModel::Remove { name: name@ },
        }
    }
}

/// The models of a list of changes.
pub open spec fn write_models(s: Seq<VaultWrite>) -> Seq<WriteModel> {
    s.map_values(|w: VaultWrite| w@)
}

/// The table after a change.
pub open spec fn written(vault: Map<Seq<char>, Seq<u8>>, w: WriteModel) -> Map<
    Seq<char>,
    Seq<u8>,
> {
    match w {
        WriteModel::Put { name, bytes } => vault.insert(name, bytes),
        WriteModel::Remove { name } => vault.remove(name),
    }
}

/// The table after changes in this order.
pub open spec fn written_all(vault: Map<Seq<char>, Seq<u8>>, writes: Seq<WriteModel>) -> Map<
    Seq<char>,
    Seq<u8>,
>
    decreases writes.len(),
{
    if writes.len() == 0 {
        vault
    } else {
        written(written_all(vault, writes.drop_last()), writes.last())
    }
}

/// What the table holds under a name.
pub open spec fn raw_of(vault: Map<Seq<char>, Seq<u8>>, name: Seq<char>) -> Option<Seq<u8>> {
    if vault.contains_key(name) {
        Some(vault[name])
    } else {
        None
    }
}

/// The secret in what the table holds under a name.
pub open spec fn secret(key: Seq<u8>, raw: Option<Seq<u8>>) -> Result<
    Option<Seq<u8>>,
    CryptoError,
> {
    match raw {
        Some(blob) => match opened(key, blob) {
            Ok(plaintext) => Ok(Some(plaintext)),
            Err(e) => Err(e),
        },
        None => Ok(None),
    }
}

/// The names of a list of entries start with `prefix` up to `n`, and no
/// further.
pub open spec fn is_run<T>(prefix: Seq<char>, entries: Seq<(String, T)>, n: int) -> bool {
    &&& 0 <= n <= entries.len()
    &&& forall|i: int| 0 <= i < n ==> prefix.is_prefix_of((#[trigger] entries[i]).0@)
    &&& n < entries.len() ==> !prefix.is_prefix_of(entries[n].0@)
}

/// The name under which an unreadable value is set aside.
pub open spec fn corrupt_name(name: Seq<char>) -> Seq<char> {
    "corrupt/"@ + name
}

/// What sets a value aside: its bytes move to another name.
pub open spec fn quarantined(name: Seq<char>, raw: Option<Seq<u8>>) -> Seq<WriteModel> {
    match raw {
        Some(bytes) => seq![
            WriteModel::Put { name: corrupt_name(name), bytes },
            WriteModel::Remove { name },
        ],
        None => Seq::empty(),
    }
}

/// A vault that is read and written with a key, which is its view.
pub struct Store {
    key: VaultKey,
}

impl View for Store {
    type V = Seq<u8>;

    closed spec fn view(&self) -> Seq<u8> {
        self.key@
    }
}

/// The bytes that were found, if any.
pub open spec fn found(raw: Option<&[u8]>) -> Option<Seq<u8>> {
    match raw {
        Some(bytes) => Some(bytes@),
        None => None,
    }
}

impl Store {
    /// A vault that is read and written with a key.
    pub fn open(key: VaultKey) -> (r: Self)
        ensures
            r@ == key@,
    {
        Store { key }
    }

    /// Seals bytes to be stored under a name.
    pub fn put_secret(&self, name: &str, plaintext: &[u8]) -> (r: VaultWrite)
        requires
            sealable(plaintext@.len()),
        ensures
            r@ matches WriteModel::Put { name: n, bytes } && n == name@ && opened(self@, bytes)
                == Ok::<Seq<u8>, CryptoError>(plaintext@),
    {
        VaultWrite::Put { name: name.to_owned(), bytes: seal(&self.key, plaintext) }
    }

    /// Opens what the table holds under a name.
    pub fn get_secret(&self, raw: Option<&[u8]>) -> (r: Result<Option<Vec<u8>>, StoreError>)
        ensures
            match secret(self@, found(raw)) {
                Ok(Some(plaintext)) => r matches Ok(Some(p)) && p@ == plaintext,
                Ok(None) => r matches Ok(None),
                Err(e) => r == Err::<Option<Vec<u8>>, StoreError>(StoreError::Crypto(e)),
            },
    {
        match raw {
            None => Ok(None),
            Some(blob) => match open(&self.key, blob) {
                Ok(plaintext) => Ok(Some(plaintext)),
                Err(e) => Err(StoreError::Crypto(e)),
            },
        }
    }

    /// Opens the entries whose name starts with `prefix`, given the entries of
    /// the table from `prefix` on, in order. Each entry has its own result, so
    /// that an unreadable one does not hide the others.
    pub fn list_secrets(&self, prefix: &str, entries: Vec<(String, Vec<u8>)>) -> (r: Vec<
        (String, Result<Vec<u8>, CryptoError>),
    >)
        ensures
            is_run(prefix@, entries@, r@.len() as int),
            forall|i: int|
                #![trigger r@[i]]
                0 <= i < r@.len() ==> {
                    &&& r@[i].0@ == entries@[i].0@
                    &&& match opened(self@, entries@[i].1@) {
                        Ok(plaintext) => r@[i].1 matches Ok(p) && p@ == plaintext,
                        Err(e) => r@[i].1 == Err::<Vec<u8>, CryptoError>(e),
                    }
                },
    {
        let mut out: Vec<(String, Result<Vec<u8>, CryptoError>)> = Vec::new();
        let mut i: usize = 0;
        while i < entries.len()
            invariant
                i <= entries.len(),
                out@.len() == i,
                forall|k: int|
                    0 <= k < i ==> prefix@.is_prefix_of((#[trigger] entries@[k]).0@),
                forall|k: int|
                    #![trigger out@[k]]
                    0 <= k < i ==> {
                        &&& out@[k].0@ == entries@[k].0@
                        &&& match opened(self@, entries@[k].1@) {
                            Ok(plaintext) => out@[k].1 matches Ok(p) && p@ == plaintext,
                            Err(e) => out@[k].1 == Err::<Vec<u8>, CryptoError>(e),
                        }
                    },
            decreases entries.len() - i,
        {
            let name = &entries[i].0;
            match strip_prefix(name.as_str(), prefix) {
                None => {
                    return out;
                },
                Some(rest) => {
                    assert(prefix@.is_prefix_of(name@)) by {
                        assert(name@.subrange(0, prefix@.len() as int) =~= prefix@);
                    }
                },
            }
            let value = open(&self.key, entries[i].1.as_slice());
            out.push((name.clone(), value));
            i = i + 1;
        }
        out
    }
}

impl Store {
    /// Removes an entry; nothing happens where there is none.
    pub fn delete_secret(&self, name: &str) -> (r: VaultWrite)
        ensures
            r@ == (WriteModel::Remove { name: name@ }),
    {
        VaultWrite::Remove { name: name.to_owned() }
    }

    /// Sets aside what the table holds under a name, so that it is neither in
    /// the way nor lost.
    pub fn quarantine(&self, name: &str, raw: Option<&[u8]>) -> (r: Vec<VaultWrite>)
        ensures
            write_models(r@) == quarantined(name@, found(raw)),
    {
        let mut out: Vec<VaultWrite> = Vec::new();
        if let Some(bytes) = raw {
            let mut copy: Vec<u8> = Vec::new();
            push_bytes(&mut copy, bytes);
            assert(copy@ =~= bytes@);
            out.push(VaultWrite::Put { name: "corrupt/".to_owned().concat(name), bytes: copy });
            out.push(VaultWrite::Remove { name: name.to_owned() });
        }
        assert(write_models(out@) =~= quarantined(name@, found(raw)));
        out
    }
}

/// What was stored is read back, and nothing else has changed: a blob that
/// the key opens to a plaintext gives that plaintext after it was put.
pub proof fn stored_secret_is_read_back(
    vault: Map<Seq<char>, Seq<u8>>,
    key: Seq<u8>,
    name: Seq<char>,
    blob: Seq<u8>,
    plaintext: Seq<u8>,
    other: Seq<char>,
)
    requires
        opened(key, blob) == Ok::<Seq<u8>, CryptoError>(plaintext),
    ensures
        ({
            let after = written(vault, WriteModel::Put { name, bytes: blob });
            &&& secret(key, raw_of(after, name)) == Ok::<Option<Seq<u8>>, CryptoError>(
                Some(plaintext),
            )
            &&& other != name ==> raw_of(after, other) == raw_of(vault, other)
        }),
{
}

/// What was removed is gone, and nothing else has changed.
pub proof fn deleted_secret_is_gone(
    vault: Map<Seq<char>, Seq<u8>>,
    key: Seq<u8>,
    name: Seq<char>,
    other: Seq<char>,
)
    ensures
        ({
            let after = written(vault, WriteModel::Remove { name });
            &&& secret(key, raw_of(after, name)) == Ok::<Option<Seq<u8>>, CryptoError>(None)
            &&& other != name ==> raw_of(after, other) == raw_of(vault, other)
        }),
{
}

/// Setting a value aside takes it out of the way and loses nothing: its bytes
/// are under the other name, and all other entries are as they were.
pub proof fn quarantine_preserves(
    vault: Map<Seq<char>, Seq<u8>>,
    name: Seq<char>,
    other: Seq<char>,
)
    ensures
        ({
            let after = written_all(vault, quarantined(name, raw_of(vault, name)));
            &&& raw_of(after, name) is None
            &&& vault.contains_key(name) ==> raw_of(after, corrupt_name(name)) == raw_of(
                vault,
                name,
            )
            &&& other != name && other != corrupt_name(name) ==> raw_of(after, other) == raw_of(
                vault,
                other,
            )
            &&& !vault.contains_key(name) ==> after == vault
        }),
{
    reveal_with_fuel(written_all, 3);
    reveal_strlit("corrupt/");
    let writes = quarantined(name, raw_of(vault, name));
    assert(corrupt_name(name).len() == 8 + name.len());
    if vault.contains_key(name) {
        let bytes = vault[name];
        assert(writes.drop_last() =~= seq![
            WriteModel::Put { name: corrupt_name(name), bytes },
        ]);
        assert(writes.drop_last().drop_last() =~= Seq::<WriteModel>::empty());
    }
}

/// The encoding of two texts one after the other.
proof fn encode_concat(a: Seq<char>, b: Seq<char>)
    ensures
        encode_utf8(a + b) == encode_utf8(a) + encode_utf8(b),
    decreases a.len(),
{
    if a.len() == 0 {
        assert(a + b =~= b);
        assert(encode_utf8(a) + encode_utf8(b) =~= encode_utf8(b));
    } else {
        encode_concat(a.drop_first(), b);
        assert((a + b).drop_first() =~= a.drop_first() + b);
        assert(encode_utf8(a + b) =~= encode_utf8(a) + encode_utf8(b));
    }
}

/// A text starts with another if and only if their encodings do.
proof fn encoded_prefix(p: Seq<char>, s: Seq<char>)
    ensures
        p.is_prefix_of(s) <==> encode_utf8(p).is_prefix_of(encode_utf8(s)),
{
    let ep = encode_utf8(p);
    let es = encode_utf8(s);
    if p.is_prefix_of(s) {
        let rest = s.subrange(p.len() as int, s.len() as int);
        assert(s =~= p + rest);
        encode_concat(p, rest);
        assert(es.subrange(0, ep.len() as int) =~= ep);
    }
    if ep.is_prefix_of(es) {
        let n = ep.len() as int;
        let tail = es.subrange(n, es.len() as int);
        vstd::utf8::encode_utf8_valid_utf8(p);
        vstd::utf8::encode_utf8_valid_utf8(s);
        assert(es.subrange(0, n) =~= ep);
        if !valid_utf8(tail) {
            vstd::utf8::partial_valid_partial_invalid_utf8(es, n);
        }
        let rest = decode_utf8(tail);
        vstd::utf8::decode_utf8_encode_utf8(tail);
        encode_concat(p, rest);
        assert(es =~= ep + tail);
        vstd::utf8::encode_utf8_decode_utf8(s);
        vstd::utf8::encode_utf8_decode_utf8(p + rest);
        assert(s == p + rest);
        assert(s.subrange(0, p.len() as int) =~= p);
    }
}

/// Of byte strings that are not before `p`, those that start with `p` come
/// first.
proof fn prefix_comes_first(p: Seq<u8>, a: Seq<u8>, b: Seq<u8>)
    requires
        !lex_lt(a, p),
        lex_lt(a, b),
        p.is_prefix_of(b),
    ensures
        p.is_prefix_of(a),
{
    assert(b.subrange(0, p.len() as int) =~= p);
    assert forall|k: int| 0 <= k < p.len() implies b[k] == p[k] by {
        assert(b.subrange(0, p.len() as int)[k] == b[k]);
    }
    let i = choose|i: int| smaller_at(a, b, i);
    if i < p.len() {
        assert(smaller_at(a, p, i));
    }
    assert(a.subrange(0, p.len() as int) =~= p);
}

/// Stopping at the first name without the prefix misses nothing: in a table
/// that is ordered by the bytes of the names, read from `prefix` on, the names
/// with the prefix are exactly those of the run.
pub proof fn run_is_all<T>(prefix: Seq<char>, entries: Seq<(String, T)>, n: int)
    requires
        is_run(prefix, entries, n),
        forall|i: int, j: int|
            0 <= i < j < entries.len() ==> lex_lt(
                encode_utf8((#[trigger] entries[i]).0@),
                encode_utf8((#[trigger] entries[j]).0@),
            ),
        forall|i: int|
            0 <= i < entries.len() ==> !lex_lt(
                encode_utf8((#[trigger] entries[i]).0@),
                encode_utf8(prefix),
            ),
    ensures
        forall|i: int|
            0 <= i < entries.len() ==> (prefix.is_prefix_of((#[trigger] entries[i]).0@) <==> i
                < n),
{
    assert forall|i: int| 0 <= i < entries.len() implies (prefix.is_prefix_of(
        (#[trigger] entries[i]).0@,
    ) <==> i < n) by {
        if i >= n && prefix.is_prefix_of(entries[i].0@) {
            encoded_prefix(prefix, entries[n].0@);
            encoded_prefix(prefix, entries[i].0@);
            assert(i != n);
            assert(lex_lt(encode_utf8(entries[n].0@), encode_utf8(entries[i].0@)));
            prefix_comes_first(
                encode_utf8(prefix),
                encode_utf8(entries[n].0@),
                encode_utf8(entries[i].0@),
            );
        }
    }
}

/// What is put away under a name is got back from what then stands there, and
/// nothing is got where nothing stands.
pub proof fn secret_is_got_back(
    store: &Store,
    name: &str,
    plaintext: &[u8],
    stored: &[u8],
    w: VaultWrite,
    r: Result<Option<Vec<u8>>, StoreError>,
    none: Result<Option<Vec<u8>>, StoreError>,
)
    requires
        call_ensures(Store::put_secret, (store, name, plaintext), w),
        written(Map::empty(), w@)[name@] == stored@,
        call_ensures(Store::get_secret, (store, Some(stored)), r),
        call_ensures(Store::get_secret, (store, None), none),
    ensures
        r matches Ok(Some(found)) && found@ == plaintext@,
        none matches Ok(None),
{
}

} // verus!
