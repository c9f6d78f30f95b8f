//! The list of files of a shared directory, with their sizes and hashes,
//! and the listing that the server broadcasts from it.
use vstd::prelude::*;
use crate::messages::FileListingFragment;

verus! {

/// The size of the chunks that served files are cut into.
pub const CHUNK_SIZE: u16 = 512;

/// Name of the hash algorithm of a hashlist.
pub open spec fn sha256_name() -> Seq<char> {
    seq!['s', 'h', 'a', '2', '5', '6']
}

/// A file's relative path, length and hash.
#[derive(Debug)]
pub struct FileHashItem {
    /// The relative path of the file.
    pub path: String,
    /// The size of the file in bytes.
    pub size: u64,
    /// The hash of the file, of the kind that the hashlist names.
    pub hash: Vec<u8>,
}

impl PartialEq for FileHashItem {
    fn eq(&self, other: &FileHashItem) -> (r: bool) {
        self.same_as(other)
    }
}

impl vstd::std_specs::cmp::PartialEqSpecImpl for FileHashItem {
    open spec fn obeys_eq_spec() -> bool {
        true
    }

    open spec fn eq_spec(&self, other: &FileHashItem) -> bool {
        self.path@ == other.path@ && self.size == other.size && self.hash@ == other.hash@
    }
}

fn same_bytes(a: &Vec<u8>, b: &Vec<u8>) -> (r: bool)
    ensures
        r == (a@ == b@),
{
    if a.len() != b.len() {
        return false;
    }
    let mut i: usize = 0;
    while i < a.len()
        invariant
            a@.len() == b@.len(),
            0 <= i <= a@.len(),
            forall|j: int| 0 <= j < i ==> a@[j] == b@[j],
        decreases a@.len() - i,
    {
        if a[i] != b[i] {
            return false;
        }
        i = i + 1;
    }
    assert(a@ =~= b@);
    true
}

impl FileHashItem {
    /// An item that stands for a file that does not exist: size 0 and a hash
    /// of 32 zero bytes (which is not the hash of an empty file).
    pub fn nonexistent(path: &str) -> (r: Self)
        ensures
            r.path@ == path@,
            r.size == 0,
            r.hash@ == Seq::new(32, |i: int| 0u8),
    {
        let hash: Vec<u8> = vec![0u8; 32];
        assert(hash@ =~= Seq::new(32, |i: int| 0u8));
        FileHashItem { path: path.to_owned(), size: 0, hash }
    }

    /// A non-existent file with the empty path.
    pub fn nonexistent_empty_path() -> (r: Self)
        ensures
            r.path@ == Seq::<char>::empty(),
            r.size == 0,
            r.hash@ == Seq::new(32, |i: int| 0u8),
    {
        proof {
            reveal_strlit("");
        }
        Self::nonexistent("")
    }

    /// Whether the two items agree on path, size and hash.
    pub fn same_as(&self, other: &FileHashItem) -> (r: bool)
        ensures
            r == (self.path@ == other.path@ && self.size == other.size && self.hash@
                == other.hash@),
    {
        self.path == other.path && self.size == other.size && same_bytes(&self.hash, &other.hash)
    }

    /// A field-for-field copy.
    pub fn duplicate(&self) -> (r: Self)
        ensures
            r.path@ == self.path@,
            r.size == self.size,
            r.hash@ == self.hash@,
    {
        let mut hash: Vec<u8> = Vec::new();
        crate::magic::push_all(&mut hash, self.hash.as_slice());
        FileHashItem { path: self.path.clone(), size: self.size, hash }
    }
}

/// The files of a directory, with the name of the algorithm that hashed them.
#[derive(Debug)]
pub struct HashList {
    /// The name of the hash algorithm; "sha256".
    pub hash_algorithm: String,
    /// The files of the directory.
    pub files: Vec<FileHashItem>,
}

impl HashList {
    /// A hashlist of SHA-256 hashes of the given files.
    pub fn new(files: Vec<FileHashItem>) -> (r: Self)
        ensures
            r.hash_algorithm@ == sha256_name(),
            r.files@ == files@,
    {
        proof {
            reveal_strlit("sha256");
        }
        HashList { hash_algorithm: "sha256".to_owned(), files }
    }
}

/// Whether two items agree on path, size and hash.
pub open spec fn same_item(a: FileHashItem, b: FileHashItem) -> bool {
    a.path@ == b.path@ && a.size == b.size && a.hash@ == b.hash@
}

/// The result of checking one hashlist entry against what is on disk
/// (`None` when the file is missing): a discrepancy, as the expected item and
/// the item found, or nothing. A missing file is a discrepancy unless
/// missing files are ignored; it is then found as a non-existent item with
/// the empty path.
pub fn check_entry(expected: &FileHashItem, found: Option<&FileHashItem>, ignore_missing: bool) -> (r:
    Option<(FileHashItem, FileHashItem)>)
    ensures
        found is None && ignore_missing ==> r is None,
        found is None && !ignore_missing ==> (r matches Some((e, a)) && same_item(e, *expected)
            && a.path@ == Seq::<char>::empty() && a.size == 0 && a.hash@ == Seq::new(
            32,
            |i: int| 0u8,
        )),
        found matches Some(f) ==> (r is None <==> same_item(*f, *expected)),
        found matches Some(f) ==> (r matches Some((e, a)) ==> (same_item(e, *expected)
            && same_item(a, *f))),
{
    match found {
        None => {
            if ignore_missing {
                None
            } else {
                Some((expected.duplicate(), FileHashItem::nonexistent_empty_path()))
            }
        },
        Some(f) => {
            if f.same_as(expected) {
                None
            } else {
                Some((expected.duplicate(), f.duplicate()))
            }
        },
    }
}

/// Whether `path` is one of the paths of `listed`.
pub fn is_listed(listed: &Vec<String>, path: &String) -> (r: bool)
    ensures
        r == exists|i: int| 0 <= i < listed@.len() && (#[trigger] listed@[i])@ == path@,
{
    let mut i: usize = 0;
    while i < listed.len()
        invariant
            0 <= i <= listed@.len(),
            forall|j: int| 0 <= j < i ==> (#[trigger] listed@[j])@ != path@,
        decreases listed@.len() - i,
    {
        if listed[i] == *path {
            return true;
        }
        i = i + 1;
    }
    false
}

/// A file on disk that the hashlist does not list, as a discrepancy: a
/// non-existent item was expected where this one is found.
pub fn unlisted_file(path: &str, size: u64, hash: Vec<u8>) -> (r: (FileHashItem, FileHashItem))
    ensures
        r.0.path@ == path@,
        r.0.size == 0,
        r.0.hash@ == Seq::new(32, |i: int| 0u8),
        r.1.path@ == path@,
        r.1.size == size,
        r.1.hash@ == hash@,
{
    (FileHashItem::nonexistent(path), FileHashItem { path: path.to_owned(), size, hash })
}

/// Whether `f` is the listing fragment of `item`, the `idx`-th of `total`.
pub open spec fn is_fragment_of(f: FileListingFragment, item: FileHashItem, idx: nat, total: nat) -> bool {
    &&& f.idx == idx
    &&& f.total == total
    &&& f.path@ == item.path@
    &&& f.size == item.size
    &&& f.hash@ == item.hash@
    &&& f.chunk_size == CHUNK_SIZE
}

/// The listing that the server broadcasts for a hashlist: one fragment per
/// file, in the hashlist's order, with chunks of `CHUNK_SIZE` bytes.
pub fn hashlist_into_file_listing(hashlist: HashList) -> (r: Vec<FileListingFragment>)
    requires
        hashlist.files@.len() <= u32::MAX,
        forall|i: int| 0 <= i < hashlist.files@.len() ==> #[trigger] hashlist.files@[i].hash@.len()
            == 32,
    ensures
        r@.len() == hashlist.files@.len(),
        forall|i: int|
            0 <= i < r@.len() ==> is_fragment_of(
                #[trigger] r@[i],
                hashlist.files@[i],
                i as nat,
                hashlist.files@.len(),
            ),
{
    let len = hashlist.files.len();
    let mut listing: Vec<FileListingFragment> = Vec::with_capacity(len);
    let mut i: usize = 0;
    while i < len
        invariant
            len == hashlist.files@.len(),
            len <= u32::MAX,
            0 <= i <= len,
            forall|j: int| 0 <= j < len ==> #[trigger] hashlist.files@[j].hash@.len() == 32,
            listing@.len() == i,
            forall|j: int|
                0 <= j < i ==> is_fragment_of(
                    #[trigger] listing@[j],
                    hashlist.files@[j],
                    j as nat,
                    len as nat,
                ),
        decreases len - i,
    {
        let item = &hashlist.files[i];
        let mut hash = [0u8; 32];
        let mut k: usize = 0;
        while k < 32
            invariant
                item.hash@.len() == 32,
                0 <= k <= 32,
                forall|t: int| 0 <= t < k ==> hash@[t] == item.hash@[t],
            decreases 32 - k,
        {
            hash[k] = item.hash[k];
            k = k + 1;
        }
        assert(hash@ =~= item.hash@);
        listing.push(
            FileListingFragment {
                idx: i as u32,
                total: len as u32,
                path: item.path.clone(),
                size: item.size,
                hash,
                chunk_size: CHUNK_SIZE,
            },
        );
        i = i + 1;
    }
    listing
}

} // verus!
