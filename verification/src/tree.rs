//! Tree entries: the mode, name and child digest of one directory entry,
//! and the binary form in which a tree object holds them.
use crate::ascii::{find, find_byte, lemma_find_from};
use crate::digest::{hex_encode, hex_lower};
use crate::error::GitError;
use crate::object::{ObjectType, NUL, SPACE};
use crate::store::{fetched_hex, ObjectStore};
use crate::text::text_of;
use vstd::prelude::*;
use vstd::slice::slice_subrange;
use vstd::utf8::{decode_utf8, valid_utf8};

verus! {

/// What a tree entry points at.
#[derive(Debug, Clone, Copy, PartialEq, Eq, Structural)]
pub enum TreeEntryType {
    Blob,
    Tree,
}

impl Default for TreeEntryType {
    fn default() -> (kind: TreeEntryType)
        ensures
            kind == TreeEntryType::Tree,
    {
        TreeEntryType::Tree
    }
}

impl TreeEntryType {
    /// The type's name as it is listed: `blob` or `tree`, in ASCII.
    pub open spec fn name(self) -> Seq<u8> {
        match self {
            TreeEntryType::Blob => seq![0x62u8, 0x6c, 0x6f, 0x62],
            TreeEntryType::Tree => seq![0x74u8, 0x72, 0x65, 0x65],
        }
    }

    /// Writes the type's name.
    pub fn name_bytes(&self) -> (name: Vec<u8>)
        ensures
            name@ == self.name(),
    {
        let name = match self {
            TreeEntryType::Blob => vec![0x62u8, 0x6c, 0x6f, 0x62],
            TreeEntryType::Tree => vec![0x74u8, 0x72, 0x65, 0x65],
        };
        assert(name@ =~= self.name());
        name
    }
}

/// What the file system reports of a directory entry, as far as its mode
/// depends on it.
#[derive(Debug, Clone, Copy, PartialEq, Eq, Structural)]
pub struct FileMetadata {
    pub is_dir: bool,
    pub is_symlink: bool,
    /// The permission bits.
    pub permissions: u32,
}

/// The mode of a tree entry.
#[derive(Debug, Clone, Copy, PartialEq, Eq, Structural)]
pub enum TreeEntryMode {
    RegularFile,
    ExecutableFile,
    SymbolicLink,
    Directory,
}

impl Default for TreeEntryMode {
    fn default() -> (mode: TreeEntryMode)
        ensures
            mode == TreeEntryMode::RegularFile,
    {
        TreeEntryMode::RegularFile
    }
}

impl From<&FileMetadata> for TreeEntryMode {
    fn from(meta: &FileMetadata) -> (mode: TreeEntryMode) {
        TreeEntryMode::from_metadata(meta)
    }
}

impl vstd::std_specs::convert::FromSpecImpl<&FileMetadata> for TreeEntryMode {
    open spec fn obeys_from_spec() -> bool {
        true
    }

    open spec fn from_spec(meta: &FileMetadata) -> TreeEntryMode {
        TreeEntryMode::of_metadata(*meta)
    }
}

/// The mode that `text` names. A directory is named with or without its
/// leading zero.
pub open spec fn mode_named(text: Seq<u8>) -> Option<TreeEntryMode> {
    if text == TreeEntryMode::RegularFile.text() {
        Some(TreeEntryMode::RegularFile)
    } else if text == TreeEntryMode::ExecutableFile.text() {
        Some(TreeEntryMode::ExecutableFile)
    } else if text == TreeEntryMode::SymbolicLink.text() {
        Some(TreeEntryMode::SymbolicLink)
    } else if text == TreeEntryMode::Directory.text() || text
        == TreeEntryMode::Directory.display_text() {
        Some(TreeEntryMode::Directory)
    } else {
        None
    }
}

impl TreeEntryMode {
    /// The mode as it is shown: six octal digits in ASCII, `100644`,
    /// `100755`, `120000` or `040000`.
    pub open spec fn display_text(self) -> Seq<u8> {
        match self {
            TreeEntryMode::RegularFile => seq![0x31u8, 0x30, 0x30, 0x36, 0x34, 0x34],
            TreeEntryMode::ExecutableFile => seq![0x31u8, 0x30, 0x30, 0x37, 0x35, 0x35],
            TreeEntryMode::SymbolicLink => seq![0x31u8, 0x32, 0x30, 0x30, 0x30, 0x30],
            TreeEntryMode::Directory => seq![0x30u8, 0x34, 0x30, 0x30, 0x30, 0x30],
        }
    }

    /// The mode as a tree object holds it: as it is shown, but `40000`
    /// for a directory, without the leading zero.
    pub open spec fn text(self) -> Seq<u8> {
        match self {
            TreeEntryMode::Directory => seq![0x34u8, 0x30, 0x30, 0x30, 0x30],
            _ => self.display_text(),
        }
    }

    /// The mode of a directory entry: a directory before a symbolic link,
    /// that before a file with any execute bit set, and a regular file
    /// otherwise.
    pub open spec fn of_metadata(meta: FileMetadata) -> TreeEntryMode {
        if meta.is_dir {
            TreeEntryMode::Directory
        } else if meta.is_symlink {
            TreeEntryMode::SymbolicLink
        } else if meta.permissions & 0o111 != 0 {
            TreeEntryMode::ExecutableFile
        } else {
            TreeEntryMode::RegularFile
        }
    }

    /// Determines the mode of a directory entry from its metadata.
    pub fn from_metadata(meta: &FileMetadata) -> (mode: TreeEntryMode)
        ensures
            mode == TreeEntryMode::of_metadata(*meta),
    {
        if meta.is_dir {
            TreeEntryMode::Directory
        } else if meta.is_symlink {
            TreeEntryMode::SymbolicLink
        } else if (meta.permissions & 0o111) != 0 {
            TreeEntryMode::ExecutableFile
        } else {
            TreeEntryMode::RegularFile
        }
    }

    /// Writes the mode as it is shown.
    pub fn display_bytes(&self) -> (text: Vec<u8>)
        ensures
            text@ == self.display_text(),
    {
        let text = match self {
            TreeEntryMode::RegularFile => vec![0x31u8, 0x30, 0x30, 0x36, 0x34, 0x34],
            TreeEntryMode::ExecutableFile => vec![0x31u8, 0x30, 0x30, 0x37, 0x35, 0x35],
            TreeEntryMode::SymbolicLink => vec![0x31u8, 0x32, 0x30, 0x30, 0x30, 0x30],
            TreeEntryMode::Directory => vec![0x30u8, 0x34, 0x30, 0x30, 0x30, 0x30],
        };
        assert(text@ =~= self.display_text());
        text
    }

    /// Writes the mode as a tree object holds it.
    pub fn raw_bytes(&self) -> (text: Vec<u8>)
        ensures
            text@ == self.text(),
    {
        match self {
            TreeEntryMode::Directory => {
                let text = vec![0x34u8, 0x30, 0x30, 0x30, 0x30];
                assert(text@ =~= self.text());
                text
            },
            _ => self.display_bytes(),
        }
    }

    /// Reads a mode.
    pub fn from_text(text: &[u8]) -> (mode: Option<TreeEntryMode>)
        ensures
            mode == mode_named(text@),
    {
        if text.len() == 5 {
            if text[0] == 0x34 && text[1] == 0x30 && text[2] == 0x30 && text[3] == 0x30 && text[4]
                == 0x30 {
                assert(text@ =~= TreeEntryMode::Directory.text());
                Some(TreeEntryMode::Directory)
            } else {
                None
            }
        } else if text.len() == 6 {
            let zeros = text[3] == 0x30 && text[4] == 0x30 && text[5] == 0x30;
            if text[0] == 0x31 && text[1] == 0x30 && text[2] == 0x30 && text[3] == 0x36 && text[4]
                == 0x34 && text[5] == 0x34 {
                assert(text@ =~= TreeEntryMode::RegularFile.text());
                Some(TreeEntryMode::RegularFile)
            } else if text[0] == 0x31 && text[1] == 0x30 && text[2] == 0x30 && text[3] == 0x37
                && text[4] == 0x35 && text[5] == 0x35 {
                assert(text@ =~= TreeEntryMode::ExecutableFile.text());
                Some(TreeEntryMode::ExecutableFile)
            } else if text[0] == 0x31 && text[1] == 0x32 && text[2] == 0x30 && zeros {
                assert(text@ =~= TreeEntryMode::SymbolicLink.text());
                Some(TreeEntryMode::SymbolicLink)
            } else if text[0] == 0x30 && text[1] == 0x34 && text[2] == 0x30 && zeros {
                assert(text@ =~= TreeEntryMode::Directory.display_text());
                Some(TreeEntryMode::Directory)
            } else {
                None
            }
        } else {
            None
        }
    }
}

/// Each mode is read back from both of its written forms.
pub proof fn lemma_mode_round_trip(mode: TreeEntryMode)
    ensures
        mode_named(mode.text()) == Some(mode),
        mode_named(mode.display_text()) == Some(mode),
        forall|i: int| 0 <= i < mode.text().len() ==> 0x30 <= #[trigger] mode.text()[i] <= 0x37,
{
    assert(TreeEntryMode::RegularFile.text()[3] == 0x36);
    assert(TreeEntryMode::ExecutableFile.text()[3] == 0x37);
    assert(TreeEntryMode::SymbolicLink.text()[1] == 0x32);
    assert(TreeEntryMode::Directory.text()[0] == 0x34);
    assert(TreeEntryMode::Directory.display_text()[0] == 0x30);
    assert(TreeEntryMode::Directory.text().len() == 5);
    assert(TreeEntryMode::RegularFile.text().len() == 6);
    assert(TreeEntryMode::ExecutableFile.text().len() == 6);
    assert(TreeEntryMode::SymbolicLink.text().len() == 6);
}

/// One entry of a tree, as it is read back from a store: its mode, its
/// name, and the digest of its child in hexadecimal.
#[derive(Debug, PartialEq, Eq)]
pub struct TreeEntry {
    pub mode: TreeEntryMode,
    pub name: String,
    pub sha: String,
}

/// A tree entry as a value.
pub struct TreeEntryModel {
    pub mode: TreeEntryMode,
    pub name: Seq<char>,
    pub sha: Seq<char>,
}

impl View for TreeEntry {
    type V = TreeEntryModel;

    open spec fn view(&self) -> TreeEntryModel {
        TreeEntryModel { mode: self.mode, name: self.name@, sha: self.sha@ }
    }
}

impl Default for TreeEntry {
    fn default() -> (entry: TreeEntry)
        ensures
            entry@ == (TreeEntryModel {
                mode: TreeEntryMode::RegularFile,
                name: Seq::<char>::empty(),
                sha: Seq::<char>::empty(),
            }),
    {
        TreeEntry { mode: TreeEntryMode::RegularFile, name: String::new(), sha: String::new() }
    }
}

impl TreeEntryModel {
    /// A directory is a tree; everything else is a blob.
    pub open spec fn entry_type(self) -> TreeEntryType {
        match self.mode {
            TreeEntryMode::Directory => TreeEntryType::Tree,
            _ => TreeEntryType::Blob,
        }
    }
}

impl TreeEntry {
    /// The type of the object that the entry points at.
    pub fn tree_entry_type(&self) -> (kind: TreeEntryType)
        ensures
            kind == self@.entry_type(),
    {
        match self.mode {
            TreeEntryMode::Directory => TreeEntryType::Tree,
            _ => TreeEntryType::Blob,
        }
    }
}

/// The entries of one directory, in the order in which the tree object
/// holds them.
#[derive(Debug, PartialEq, Eq)]
pub struct Tree {
    pub entries: Vec<TreeEntry>,
}

impl View for Tree {
    type V = Seq<TreeEntryModel>;

    open spec fn view(&self) -> Seq<TreeEntryModel> {
        Seq::new(self.entries@.len(), |i: int| self.entries@[i]@)
    }
}

impl Default for Tree {
    fn default() -> (tree: Tree)
        ensures
            tree@ == Seq::<TreeEntryModel>::empty(),
    {
        let tree = Tree { entries: Vec::new() };
        assert(tree@ =~= Seq::<TreeEntryModel>::empty());
        tree
    }
}

/// The number of bytes that the first entry of `content` takes: its text,
/// the nul, and the twenty bytes of the digest.
pub open spec fn entry_len(content: Seq<u8>) -> int {
    find(content, NUL) + 21
}

/// The first entry of the tree content `content`.
///
/// The text runs up to the first nul, and twenty bytes of digest follow
/// it. The text holds a space; before the first space stands the mode,
/// after it the name, which is UTF-8.
pub open spec fn first_entry(content: Seq<u8>) -> Result<TreeEntryModel, GitError> {
    let nul = find(content, NUL);
    let head = content.take(nul);
    let space = find(head, SPACE);
    let name = head.skip(space + 1);
    if entry_len(content) > content.len() {
        Err(GitError::TruncatedEntry)
    } else if space >= head.len() || mode_named(head.take(space)) is None || !valid_utf8(name) {
        Err(GitError::MalformedEntry)
    } else {
        Ok(
            TreeEntryModel {
                mode: mode_named(head.take(space))->0,
                name: decode_utf8(name),
                sha: hex_lower(content.subrange(nul + 1, nul + 21)),
            },
        )
    }
}

/// The entries that the tree content `content` holds, in stored order.
/// Empty content holds none.
pub open spec fn parse_tree(content: Seq<u8>) -> Result<Seq<TreeEntryModel>, GitError>
    decreases content.len(),
    via parse_tree_decreases
{
    if content.len() == 0 {
        Ok(Seq::empty())
    } else {
        match first_entry(content) {
            Err(e) => Err(e),
            Ok(entry) => match parse_tree(content.skip(entry_len(content))) {
                Err(e) => Err(e),
                Ok(rest) => Ok(seq![entry] + rest),
            },
        }
    }
}

#[via_fn]
proof fn parse_tree_decreases(content: Seq<u8>) {
    lemma_find_from(content, NUL, 0);
}

/// `entries`, then what `rest` holds; the failure of `rest` where it has
/// one.
pub open spec fn followed_by(
    entries: Seq<TreeEntryModel>,
    rest: Result<Seq<TreeEntryModel>, GitError>,
) -> Result<Seq<TreeEntryModel>, GitError> {
    match rest {
        Ok(more) => Ok(entries + more),
        Err(e) => Err(e),
    }
}

/// The tree stored under the digest that `hash` names.
pub open spec fn tree_at(store: Map<Seq<u8>, Seq<u8>>, hash: Seq<char>) -> Result<
    Seq<TreeEntryModel>,
    GitError,
> {
    match fetched_hex(store, hash) {
        Err(e) => Err(e),
        Ok(object) => if object.object_type == ObjectType::Tree {
            parse_tree(object.content)
        } else {
            Err(GitError::WrongObjectType)
        },
    }
}

/// Reads the entries of a tree from its content.
pub fn parse_entries(content: &[u8]) -> (out: Result<Tree, GitError>)
    ensures
        match out {
            Ok(tree) => parse_tree(content@) == Ok::<Seq<TreeEntryModel>, GitError>(tree@),
            Err(e) => parse_tree(content@) == Err::<Seq<TreeEntryModel>, GitError>(e),
        },
{
    let mut tree = Tree { entries: Vec::new() };
    let mut pos: usize = 0;
    assert(content@.skip(0) =~= content@);
    assert(tree@ + parse_tree(content@)->Ok_0 =~= parse_tree(content@)->Ok_0);
    while pos < content.len()
        invariant
            pos <= content@.len(),
            parse_tree(content@) == followed_by(tree@, parse_tree(content@.skip(pos as int))),
        decreases content@.len() - pos,
    {
        let rest = slice_subrange(content, pos, content.len());
        let ghost done = tree@;
        assert(rest@ == content@.skip(pos as int));
        let nul = find_byte(rest, NUL);
        if nul >= rest.len() || rest.len() - nul < 21 {
            return Err(GitError::TruncatedEntry);
        }
        let head = slice_subrange(rest, 0, nul);
        assert(head@ == rest@.take(nul as int));
        let space = find_byte(head, SPACE);
        if space >= head.len() {
            return Err(GitError::MalformedEntry);
        }
        let mode = match TreeEntryMode::from_text(slice_subrange(head, 0, space)) {
            Some(mode) => mode,
            None => {
                return Err(GitError::MalformedEntry);
            },
        };
        let name = match text_of(slice_subrange(head, space + 1, head.len())) {
            Some(name) => name,
            None => {
                return Err(GitError::MalformedEntry);
            },
        };
        let sha = hex_encode(slice_subrange(rest, nul + 1, nul + 21));
        let entry = TreeEntry { mode, name, sha };
        proof {
            assert(first_entry(rest@) == Ok::<TreeEntryModel, GitError>(entry@));
            assert(rest@.skip(nul + 21) =~= content@.skip(pos + nul + 21));
            let more = parse_tree(content@.skip(pos + nul + 21));
            if more is Ok {
                assert(done + (seq![entry@] + more->Ok_0) =~= done.push(entry@) + more->Ok_0);
            }
        }
        tree.entries.push(entry);
        assert(tree@ =~= done.push(entry@));
        pos = pos + nul + 21;
    }
    assert(tree@ + Seq::<TreeEntryModel>::empty() =~= tree@);
    Ok(tree)
}

/// Reads the tree that is stored under the digest that `tree_hash` names.
///
/// The entries come in stored order; they are not sorted again.
pub fn build_tree(store: &ObjectStore, tree_hash: &str) -> (out: Result<Tree, GitError>)
    ensures
        match out {
            Ok(tree) => tree_at(store@, tree_hash@) == Ok::<Seq<TreeEntryModel>, GitError>(tree@),
            Err(e) => tree_at(store@, tree_hash@) == Err::<Seq<TreeEntryModel>, GitError>(e),
        },
{
    let object = store.get_hex(tree_hash)?;
    match object.object_type {
        ObjectType::Tree => parse_entries(object.content.as_slice()),
        _ => Err(GitError::WrongObjectType),
    }
}

} // verus!
