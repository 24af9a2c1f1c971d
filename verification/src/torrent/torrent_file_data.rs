//! The data of a .torrent file that the client uses, read from its bencoded dictionary.

use vstd::prelude::*;
use vstd::string::*;
use crate::bencoding::encoder::{encode_dic, spec_encode_value};
use crate::bencoding::values::{bytes_equal, spec_lookup, Bencode, DicValues, ValuesBencoding};
use crate::p2p::message::PieceStatus;
use sha1::Digest;
use rand::seq::SliceRandom;

verus! {

/// The key of the main tracker's URL.
pub const ANNOUNCE: &'static str = "announce";

/// The key of the info dictionary.
pub const INFO: &'static str = "info";

/// The key of the length of a piece.
pub const PIECE_LENGTH: &'static str = "piece length";

/// The key of the list of lists of trackers.
pub const ANNOUNCE_LIST: &'static str = "announce-list";

/// The key of a file's length.
pub const LENGTH: &'static str = "length";

/// The key of the list of files.
pub const FILES: &'static str = "files";

/// The key of the name of the file or directory.
pub const NAME: &'static str = "name";

/// The key of the SHA-1 hashes of the pieces.
pub const PIECES: &'static str = "pieces";

/// The key of a file's path.
pub const PATH: &'static str = "path";

/// The length of a SHA-1 hash.
pub const SHA1_LENGTH: usize = 20;

/// The most bytes a block may hold.
pub const BLOCK_BYTES: u32 = 16384;

/// The part of a .torrent file where something went wrong.
#[derive(Debug, PartialEq, Eq, Clone, Copy, Structural)]
pub enum Section {
    Announce,
    TrackerList,
    Info,
    PieceLength,
    Files,
    Length,
    Name,
    Pieces,
    Path,
    FilesData,
}

/// What can go wrong reading a .torrent file or checking a request against it.
#[derive(Debug, PartialEq, Eq)]
pub enum TorrentFileDataError {
    NotFound(Section),
    Format(Section),
    Creation(Section),
    Calculation(Section),
    CheckingBitfield(String),
    CheckingRequestBlock(String),
}

/// The description of the error for a bitfield shorter than the torrent's pieces.
pub const BITFIELD_LENGTH_TEXT: &'static str = "[TorrentFileDataError] The bitfield length is incorrect.";

/// The description of the error for a bitfield that marks a piece past the last one.
pub const SPARE_BITS_TEXT: &'static str = "[TorrentFileDataError] Some of the spare bits are set.";

/// The description of the error for a requested block that ends past its piece.
pub const BLOCK_PAST_PIECE_TEXT: &'static str =
    "[TorrentFileDataError] The requested amount of bytes does not match with piece lenght.";

/// The description of the error for a requested block longer than a block.
pub const BLOCK_TOO_LARGE_TEXT: &'static str =
    "[TorrentFileDataError] The requested amount of bytes is bigger than 2^14 bytes.";

/// The description of the error for a refused bitfield: too short, or marking a piece past
/// the last one.
pub open spec fn spec_bitfield_failure_text(torrent: &TorrentFileData, bitfield: Seq<PieceStatus>) -> Seq<char> {
    if bitfield.len() < torrent.total_amount_of_pieces {
        BITFIELD_LENGTH_TEXT@
    } else {
        SPARE_BITS_TEXT@
    }
}

/// A file of a torrent with several files: its path inside the torrent's directory, and its
/// length.
#[derive(Debug, PartialEq, Eq, Clone)]
pub struct FileData {
    pub path: String,
    pub file_length: u64,
}

/// The file, or the directory of files, that a torrent downloads.
#[derive(Debug, PartialEq, Eq, Clone)]
pub enum TargetFilesData {
    SingleFile { file_name: String, file_length: u64 },
    MultipleFiles { dir_name: String, list_of_files_data: Vec<FileData> },
}

/// The data of a .torrent file.
#[derive(PartialEq, Eq, Debug, Clone)]
pub struct TorrentFileData {
    pub url_tracker_main: String,
    pub url_tracker_list: Vec<String>,
    pub sha1_pieces: Vec<u8>,
    pub sha1_info_hash: Vec<u8>,
    pub piece_length: u64,
    pub total_length: u64,
    pub total_amount_of_pieces: usize,
    pub target_files_data: TargetFilesData,
}

/// Names what `std::path::Path::file_stem` gives back for a path: the final component without
/// its last extension, or `None` where the path has no final component.
pub uninterp spec fn spec_file_stem(path: Seq<char>) -> Option<Seq<char>>;

/// Calls `std::path::Path::file_stem` on a path given as text. The stem of a path that is text
/// is text too, so it is handed back as a `String`.
#[verifier::external_body]
fn file_stem_text(path: &str) -> (res: Option<String>)
    ensures
        res matches Some(s) ==> spec_file_stem(path@) == Some(s@),
        res is None ==> spec_file_stem(path@) is None,
{
    std::path::Path::new(path).file_stem().map(|stem| stem.to_string_lossy().to_string())
}

/// The name that stands for a torrent: the stem of its file's name for a single file, or
/// "unnamed" where that has none; the directory's name for several files.
pub open spec fn spec_representative_name(target: TargetFilesData) -> Seq<char> {
    match target {
        TargetFilesData::SingleFile { file_name, .. } => match spec_file_stem(file_name@) {
            Some(stem) => stem,
            None => UNNAMED@,
        },
        TargetFilesData::MultipleFiles { dir_name, .. } => dir_name@,
    }
}

/// What stands for a single file without a stem.
pub const UNNAMED: &'static str = "unnamed";

/// Names what `String::from_utf8_lossy` gives back for bytes that are not valid UTF-8: their
/// decoding, with every invalid sequence replaced by U+FFFD.
pub uninterp spec fn spec_lossy_text(bytes: Seq<u8>) -> Seq<char>;

/// The text of bytes as `String::from_utf8_lossy` reads them: their UTF-8 decoding where they
/// are valid UTF-8.
pub open spec fn spec_utf8_text(bytes: Seq<u8>) -> Seq<char> {
    if vstd::utf8::valid_utf8(bytes) {
        vstd::utf8::decode_utf8(bytes)
    } else {
        spec_lossy_text(bytes)
    }
}

/// Calls `String::from_utf8_lossy` and copies the result into a `String`. Its documentation
/// says that valid UTF-8 comes back as the text it encodes; what comes back for other bytes
/// is named.
#[verifier::external_body]
pub(crate) fn vec_u8_to_string(vec: &[u8]) -> (res: String)
    ensures
        vstd::utf8::valid_utf8(vec@) ==> res@ == vstd::utf8::decode_utf8(vec@),
        !vstd::utf8::valid_utf8(vec@) ==> res@ == spec_lossy_text(vec@),
{
    String::from_utf8_lossy(vec).to_string()
}

/// Names the SHA-1 digest of bytes, as the `sha1` crate computes it.
pub uninterp spec fn spec_sha1(data: Seq<u8>) -> Seq<u8>;

/// The SHA-1 digest of `data`, from `sha1::Sha1` (`new`, `update`, `finalize`): the named
/// digest, which is 20 bytes long.
#[verifier::external_body]
pub(crate) fn sha1_digest(data: &[u8]) -> (res: Vec<u8>)
    ensures
        res@ == spec_sha1(data@),
        res@.len() == 20,
{
    let mut hasher = sha1::Sha1::new();
    hasher.update(data);
    hasher.finalize().to_vec()
}

/// Puts the URLs in a random order with `rand`'s `SliceRandom::shuffle` and the thread's
/// random number generator: the same URLs come back, each as often as before, in an order
/// that nothing here states.
#[verifier::external_body]
fn shuffle_urls(urls: &mut Vec<Vec<u8>>)
    ensures
        spec_byte_strings(final(urls)@).to_multiset() == spec_byte_strings(old(urls)@).to_multiset(),
{
    urls.shuffle(&mut rand::thread_rng());
}

/// The byte strings of a list of vectors.
pub open spec fn spec_byte_strings(v: Seq<Vec<u8>>) -> Seq<Seq<u8>> {
    Seq::new(v.len(), |i: int| v[i]@)
}

/// The value stored under a key given as text.
pub open spec fn spec_get(d: Seq<(Seq<u8>, Bencode)>, key: &str) -> Option<Bencode> {
    spec_lookup(d, key.spec_bytes())
}

/// The info dictionary of a .torrent dictionary.
pub open spec fn spec_info(d: Seq<(Seq<u8>, Bencode)>) -> Result<Seq<(Seq<u8>, Bencode)>, TorrentFileDataError> {
    match spec_get(d, INFO) {
        Some(Bencode::Dict(info)) => Ok(info),
        Some(_) => Err(TorrentFileDataError::Format(Section::Info)),
        None => Err(TorrentFileDataError::NotFound(Section::Info)),
    }
}

/// A text stored under `key`, or the error of `section`.
pub open spec fn spec_text(d: Seq<(Seq<u8>, Bencode)>, key: &str, section: Section) -> Result<Seq<char>, TorrentFileDataError> {
    match spec_get(d, key) {
        Some(Bencode::Str(s)) => Ok(spec_utf8_text(s)),
        Some(_) => Err(TorrentFileDataError::Format(section)),
        None => Err(TorrentFileDataError::NotFound(section)),
    }
}

/// The length of a piece.
pub open spec fn spec_piece_length(info: Seq<(Seq<u8>, Bencode)>) -> Result<int, TorrentFileDataError> {
    match spec_get(info, PIECE_LENGTH) {
        Some(Bencode::Int(l)) => if l >= 0 {
            Ok(l)
        } else {
            Err(TorrentFileDataError::Creation(Section::Length))
        },
        Some(_) => Err(TorrentFileDataError::Format(Section::PieceLength)),
        None => Err(TorrentFileDataError::NotFound(Section::PieceLength)),
    }
}

/// The path of a file inside the torrent's directory: each part after a `/`.
pub open spec fn spec_string_of_path(parts: Seq<Bencode>) -> Result<Seq<char>, TorrentFileDataError>
    decreases parts.len(),
{
    if parts.len() == 0 {
        Ok(Seq::empty())
    } else {
        match spec_string_of_path(parts.drop_last()) {
            Err(e) => Err(e),
            Ok(prefix) => match parts.last() {
                Bencode::Str(s) => Ok(prefix + seq!['/'] + spec_utf8_text(s)),
                _ => Err(TorrentFileDataError::Format(Section::Path)),
            },
        }
    }
}

/// The paths of the files that are dictionaries, in order.
pub open spec fn spec_paths(files: Seq<Bencode>) -> Result<Seq<Seq<char>>, TorrentFileDataError>
    decreases files.len(),
{
    if files.len() == 0 {
        Ok(Seq::empty())
    } else {
        match spec_paths(files.drop_last()) {
            Err(e) => Err(e),
            Ok(prefix) => match files.last() {
                Bencode::Dict(f) => match spec_get(f, PATH) {
                    Some(Bencode::List(p)) => match spec_string_of_path(p) {
                        Ok(s) => Ok(prefix.push(s)),
                        Err(e) => Err(e),
                    },
                    Some(_) => Err(TorrentFileDataError::Format(Section::Length)),
                    None => Err(TorrentFileDataError::NotFound(Section::Length)),
                },
                _ => Ok(prefix),
            },
        }
    }
}

/// The lengths of the files that are dictionaries, in order.
pub open spec fn spec_sizes(files: Seq<Bencode>) -> Result<Seq<int>, TorrentFileDataError>
    decreases files.len(),
{
    if files.len() == 0 {
        Ok(Seq::empty())
    } else {
        match spec_sizes(files.drop_last()) {
            Err(e) => Err(e),
            Ok(prefix) => match files.last() {
                Bencode::Dict(f) => match spec_get(f, LENGTH) {
                    Some(Bencode::Int(l)) => Ok(prefix.push(l)),
                    Some(_) => Err(TorrentFileDataError::Format(Section::Length)),
                    None => Err(TorrentFileDataError::NotFound(Section::Length)),
                },
                _ => Ok(prefix),
            },
        }
    }
}

/// The files of a torrent with a directory: a path and a length for each, the length of
/// the dictionary read as a `u64`.
pub open spec fn spec_files_data(info: Seq<(Seq<u8>, Bencode)>) -> Result<Seq<(Seq<char>, int)>, TorrentFileDataError> {
    match spec_get(info, FILES) {
        Some(Bencode::List(files)) => match spec_paths(files) {
            Err(e) => Err(e),
            Ok(paths) => match spec_sizes(files) {
                Err(e) => Err(e),
                Ok(sizes) => if paths.len() != sizes.len() {
                    Err(TorrentFileDataError::Format(Section::FilesData))
                } else {
                    Ok(Seq::new(paths.len(), |i: int| (paths[i], sizes[i] as u64 as int)))
                },
            },
        },
        Some(_) => Err(TorrentFileDataError::Format(Section::Files)),
        None => Err(TorrentFileDataError::NotFound(Section::Files)),
    }
}

/// The value of a [`TargetFilesData`]: a single file's name and length, or a directory's name
/// and files.
pub enum TargetModel {
    Single(Seq<char>, int),
    Multiple(Seq<char>, Seq<(Seq<char>, int)>),
}

/// The target of a torrent: a single file where the info dictionary has no `files`, the
/// length read as a `u64`.
pub open spec fn spec_target(info: Seq<(Seq<u8>, Bencode)>, name: Seq<char>) -> Result<TargetModel, TorrentFileDataError> {
    if spec_get(info, FILES) is None {
        match spec_get(info, LENGTH) {
            Some(Bencode::Int(l)) => Ok(TargetModel::Single(name, l as u64 as int)),
            _ => Err(TorrentFileDataError::NotFound(Section::Length)),
        }
    } else {
        match spec_files_data(info) {
            Ok(files) => Ok(TargetModel::Multiple(name, files)),
            Err(e) => Err(e),
        }
    }
}

/// The sum of the lengths of files.
pub open spec fn spec_sum_lengths(files: Seq<(Seq<char>, int)>) -> int
    decreases files.len(),
{
    if files.len() == 0 {
        0
    } else {
        spec_sum_lengths(files.drop_last()) + files.last().1
    }
}

/// The total length of a torrent's target.
pub open spec fn spec_total_length(target: TargetModel) -> int {
    match target {
        TargetModel::Single(_, l) => l,
        TargetModel::Multiple(_, files) => spec_sum_lengths(files),
    }
}

/// The number of pieces of `total` bytes in pieces of `piece_length` bytes, the last one
/// possibly shorter.
pub open spec fn spec_amount_of_pieces(total: int, piece_length: int) -> int {
    if total % piece_length > 0 {
        total / piece_length + 1
    } else {
        total / piece_length
    }
}

/// The URLs of a list of trackers, where every item is a byte string.
pub open spec fn spec_tier_urls(tier: Seq<Bencode>) -> Option<Seq<Seq<u8>>>
    decreases tier.len(),
{
    if tier.len() == 0 {
        Some(Seq::empty())
    } else {
        match (spec_tier_urls(tier.drop_last()), tier.last()) {
            (Some(prefix), Bencode::Str(u)) => Some(prefix.push(u)),
            _ => None,
        }
    }
}

/// Whether the list of lists of trackers is well formed: a list of lists of byte strings.
pub open spec fn spec_tracker_tiers_ok(tiers: Seq<Bencode>) -> bool {
    forall|i: int|
        0 <= i < tiers.len() ==> (#[trigger] tiers[i]) is List && spec_tier_urls(tiers[i]->List_0) is Some
}

/// The texts of URLs.
pub open spec fn spec_url_texts(urls: Seq<Seq<u8>>) -> Seq<Seq<char>> {
    Seq::new(urls.len(), |i: int| spec_utf8_text(urls[i]))
}

/// Whether `texts` are the texts of the URLs in some order: each URL as often as it occurs.
pub open spec fn spec_is_shuffle_of(texts: Seq<Seq<char>>, urls: Seq<Seq<u8>>) -> bool {
    exists|p: Seq<Seq<u8>>| #[trigger] p.to_multiset() == urls.to_multiset() && texts == spec_url_texts(p)
}

/// Whether `list` is, tier after tier, the URLs of each tier in some order.
pub open spec fn spec_shuffled_tiers(list: Seq<Seq<char>>, tiers: Seq<Bencode>) -> bool
    decreases tiers.len(),
{
    if tiers.len() == 0 {
        list.len() == 0
    } else {
        let n = spec_tier_urls(tiers.last()->List_0)->0.len();
        &&& n <= list.len()
        &&& spec_is_shuffle_of(list.skip(list.len() - n), spec_tier_urls(tiers.last()->List_0)->0)
        &&& spec_shuffled_tiers(list.take(list.len() - n), tiers.drop_last())
    }
}

/// The value of a [`TorrentFileData`], but for its list of trackers, whose order is random.
pub struct TorrentModel {
    pub url_tracker_main: Seq<char>,
    pub sha1_pieces: Seq<u8>,
    pub sha1_info_hash: Seq<u8>,
    pub piece_length: int,
    pub total_length: int,
    pub total_amount_of_pieces: int,
    pub target: TargetModel,
}

/// Whether reading the dictionary would overflow or divide by zero: a piece length of zero,
/// lengths that add up beyond a `u64`, or more pieces than a `usize` counts.
pub open spec fn spec_fits(d: Seq<(Seq<u8>, Bencode)>) -> bool {
    match spec_info(d) {
        Ok(info) => match (spec_text(info, NAME, Section::Name), spec_piece_length(info)) {
            (Ok(name), Ok(pl)) => match spec_target(info, name) {
                Ok(target) => pl > 0 && spec_total_length(target) <= u64::MAX && spec_amount_of_pieces(
                    spec_total_length(target),
                    pl,
                ) <= usize::MAX,
                _ => true,
            },
            _ => true,
        },
        _ => true,
    }
}

/// The data of a .torrent dictionary, but for the list of trackers, in the order of checking:
/// the info dictionary, the name, the piece length, the target file or files, the main
/// tracker, the list of trackers, the pieces; the info hash is the SHA-1 digest of the
/// bencoded info dictionary.
pub open spec fn spec_torrent_file_data(d: Seq<(Seq<u8>, Bencode)>) -> Result<TorrentModel, TorrentFileDataError> {
    match spec_info(d) {
        Err(e) => Err(e),
        Ok(info) => match spec_text(info, NAME, Section::Name) {
            Err(e) => Err(e),
            Ok(name) => match spec_piece_length(info) {
                Err(e) => Err(e),
                Ok(piece_length) => match spec_target(info, name) {
                    Err(e) => Err(e),
                    Ok(target) => match spec_text(d, ANNOUNCE, Section::Announce) {
                        Err(e) => Err(e),
                        Ok(main) => if spec_get(d, ANNOUNCE_LIST) matches Some(Bencode::List(tiers))
                            && !spec_tracker_tiers_ok(tiers) {
                            Err(TorrentFileDataError::Format(Section::TrackerList))
                        } else {
                            match spec_get(info, PIECES) {
                                Some(Bencode::Str(pieces)) => Ok(
                                    TorrentModel {
                                        url_tracker_main: main,
                                        sha1_pieces: pieces,
                                        sha1_info_hash: spec_sha1(spec_encode_value(Bencode::Dict(info))),
                                        piece_length,
                                        total_length: spec_total_length(target),
                                        total_amount_of_pieces: spec_amount_of_pieces(
                                            spec_total_length(target),
                                            piece_length,
                                        ),
                                        target,
                                    },
                                ),
                                Some(_) => Err(TorrentFileDataError::Format(Section::Pieces)),
                                None => Err(TorrentFileDataError::NotFound(Section::Pieces)),
                            }
                        },
                    },
                },
            },
        },
    }
}

/// The value of a [`TargetFilesData`].
pub open spec fn spec_target_model(t: TargetFilesData) -> TargetModel {
    match t {
        TargetFilesData::SingleFile { file_name, file_length } => TargetModel::Single(file_name@, file_length as int),
        TargetFilesData::MultipleFiles { dir_name, list_of_files_data } => TargetModel::Multiple(
            dir_name@,
            Seq::new(
                list_of_files_data@.len(),
                |i: int| (list_of_files_data@[i].path@, list_of_files_data@[i].file_length as int),
            ),
        ),
    }
}

impl TorrentFileData {
    /// The value of this data, but for its list of trackers.
    pub open spec fn model(&self) -> TorrentModel {
        TorrentModel {
            url_tracker_main: self.url_tracker_main@,
            sha1_pieces: self.sha1_pieces@,
            sha1_info_hash: self.sha1_info_hash@,
            piece_length: self.piece_length as int,
            total_length: self.total_length as int,
            total_amount_of_pieces: self.total_amount_of_pieces as int,
            target: spec_target_model(self.target_files_data),
        }
    }

    /// Whether the counts agree: pieces of `piece_length` bytes, more than zero, cover the
    /// total length, the last one possibly shorter.
    pub open spec fn well_formed(&self) -> bool {
        &&& self.piece_length > 0
        &&& self.total_amount_of_pieces > 0
        &&& self.total_amount_of_pieces == spec_amount_of_pieces(self.total_length as int, self.piece_length as int)
    }
}

/// The sum of lengths grows with the files: a prefix of files never sums to more than all.
pub proof fn lemma_sum_prefix(files: Seq<(Seq<char>, int)>, k: int)
    requires
        0 <= k <= files.len(),
        forall|i: int| 0 <= i < files.len() ==> (#[trigger] files[i]).1 >= 0,
    ensures
        0 <= spec_sum_lengths(files.take(k)) <= spec_sum_lengths(files),
    decreases files.len() - k,
{
    if k == files.len() {
        assert(files.take(k) =~= files);
        lemma_sum_nonneg(files);
    } else {
        lemma_sum_prefix(files, k + 1);
        assert(files.take(k + 1).drop_last() =~= files.take(k));
        lemma_sum_nonneg(files.take(k));
    }
}

/// A sum of lengths that are not negative is not negative.
pub proof fn lemma_sum_nonneg(files: Seq<(Seq<char>, int)>)
    requires
        forall|i: int| 0 <= i < files.len() ==> (#[trigger] files[i]).1 >= 0,
    ensures
        spec_sum_lengths(files) >= 0,
    decreases files.len(),
{
    if files.len() > 0 {
        lemma_sum_nonneg(files.drop_last());
    }
}

/// The value stored under a key given as text.
fn get_value<'a>(d: &'a DicValues, key: &str) -> (res: Option<&'a ValuesBencoding>)
    ensures
        match res {
            Some(v) => spec_get(d@, key) == Some(v@),
            None => spec_get(d@, key) is None,
        },
{
    d.get(key.as_bytes())
}

/// The info dictionary of a .torrent dictionary.
pub(crate) fn init_info(dic_torrent: &DicValues) -> (res: Result<DicValues, TorrentFileDataError>)
    ensures
        match spec_info(dic_torrent@) {
            Ok(info) => res matches Ok(r) && r@ == info,
            Err(e) => res == Err::<DicValues, TorrentFileDataError>(e),
        },
{
    match get_value(dic_torrent, INFO) {
        Some(ValuesBencoding::Dic(dic_info)) => Ok(crate::bencoding::values::clone_dic(dic_info)),
        Some(_) => Err(TorrentFileDataError::Format(Section::Info)),
        None => Err(TorrentFileDataError::NotFound(Section::Info)),
    }
}

/// A text stored under `key`, or the error of `section`.
fn init_text(dic: &DicValues, key: &str, section: Section) -> (res: Result<String, TorrentFileDataError>)
    ensures
        match spec_text(dic@, key, section) {
            Ok(t) => res matches Ok(r) && r@ == t,
            Err(e) => res == Err::<String, TorrentFileDataError>(e),
        },
{
    match get_value(dic, key) {
        Some(ValuesBencoding::String(text)) => Ok(vec_u8_to_string(text.as_slice())),
        Some(_) => Err(TorrentFileDataError::Format(section)),
        None => Err(TorrentFileDataError::NotFound(section)),
    }
}

/// The name of the file or directory.
pub(crate) fn init_name(dic_torrent: &DicValues) -> (res: Result<String, TorrentFileDataError>)
    ensures
        match spec_text(dic_torrent@, NAME, Section::Name) {
            Ok(t) => res matches Ok(r) && r@ == t,
            Err(e) => res == Err::<String, TorrentFileDataError>(e),
        },
{
    init_text(dic_torrent, NAME, Section::Name)
}

/// Whether the info dictionary describes a single file: it has no list of files.
fn is_single_file(dic_info: &DicValues) -> (res: bool)
    ensures
        res == (spec_get(dic_info@, FILES) is None),
{
    get_value(dic_info, FILES).is_none()
}

/// The main tracker's URL.
fn init_tracker_main(dic_torrent: &DicValues) -> (res: Result<String, TorrentFileDataError>)
    ensures
        match spec_text(dic_torrent@, ANNOUNCE, Section::Announce) {
            Ok(t) => res matches Ok(r) && r@ == t,
            Err(e) => res == Err::<String, TorrentFileDataError>(e),
        },
{
    init_text(dic_torrent, ANNOUNCE, Section::Announce)
}

/// The length of a piece.
pub(crate) fn init_piece_length(dic_info: &DicValues) -> (res: Result<u64, TorrentFileDataError>)
    ensures
        match spec_piece_length(dic_info@) {
            Ok(l) => res matches Ok(r) && r == l,
            Err(e) => res == Err::<u64, TorrentFileDataError>(e),
        },
{
    match get_value(dic_info, PIECE_LENGTH) {
        Some(ValuesBencoding::Integer(length)) => {
            if *length < 0 {
                Err(TorrentFileDataError::Creation(Section::Length))
            } else {
                Ok(*length as u64)
            }
        },
        Some(_) => Err(TorrentFileDataError::Format(Section::PieceLength)),
        None => Err(TorrentFileDataError::NotFound(Section::PieceLength)),
    }
}

/// The length of a single file.
fn init_size_files_single(dic_info: &DicValues) -> (res: Result<i64, TorrentFileDataError>)
    ensures
        match spec_get(dic_info@, LENGTH) {
            Some(Bencode::Int(l)) => res matches Ok(r) && r == l,
            _ => res == Err::<i64, TorrentFileDataError>(TorrentFileDataError::NotFound(Section::Length)),
        },
{
    if let Some(ValuesBencoding::Integer(length)) = get_value(dic_info, LENGTH) {
        Ok(*length)
    } else {
        Err(TorrentFileDataError::NotFound(Section::Length))
    }
}

/// The SHA-1 hashes of the pieces, one after another.
fn init_pieces(dic_info: &DicValues) -> (res: Result<Vec<u8>, TorrentFileDataError>)
    ensures
        match spec_get(dic_info@, PIECES) {
            Some(Bencode::Str(p)) => res matches Ok(r) && r@ == p,
            Some(_) => res == Err::<Vec<u8>, TorrentFileDataError>(TorrentFileDataError::Format(Section::Pieces)),
            None => res == Err::<Vec<u8>, TorrentFileDataError>(TorrentFileDataError::NotFound(Section::Pieces)),
        },
{
    match get_value(dic_info, PIECES) {
        Some(ValuesBencoding::String(pieces)) => Ok(pieces.clone()),
        Some(_) => Err(TorrentFileDataError::Format(Section::Pieces)),
        None => Err(TorrentFileDataError::NotFound(Section::Pieces)),
    }
}

/// The info hash: the SHA-1 digest of the bencoded info dictionary.
fn init_info_hash(dic_info: &DicValues) -> (res: Result<Vec<u8>, TorrentFileDataError>)
    ensures
        res matches Ok(r) && r@ == spec_sha1(spec_encode_value(Bencode::Dict(dic_info@))),
{
    let mut vec_info: Vec<u8> = Vec::new();
    encode_dic(&mut vec_info, dic_info);
    assert(vec_info@ =~= spec_encode_value(Bencode::Dict(dic_info@)));
    Ok(sha1_digest(vec_info.as_slice()))
}

/// The number of pieces of `total_size` bytes in pieces of `piece_lenght` bytes.
fn init_total_amount_pieces(total_size: u64, piece_lenght: u64) -> (res: usize)
    requires
        piece_lenght > 0,
        spec_amount_of_pieces(total_size as int, piece_lenght as int) <= usize::MAX,
    ensures
        res == spec_amount_of_pieces(total_size as int, piece_lenght as int),
{
    let whole = total_size / piece_lenght;
    if total_size % piece_lenght > 0 {
        (whole + 1) as usize
    } else {
        whole as usize
    }
}

/// The values of a list.
pub open spec fn spec_list_values(l: Seq<ValuesBencoding>) -> Seq<Bencode> {
    Seq::new(l.len(), |i: int| l[i]@)
}

/// The path of a file inside the torrent's directory; see [`spec_string_of_path`].
fn string_of_path(path: &Vec<ValuesBencoding>) -> (res: Result<String, TorrentFileDataError>)
    ensures
        match spec_string_of_path(spec_list_values(path@)) {
            Ok(p) => res matches Ok(r) && r@ == p,
            Err(e) => res == Err::<String, TorrentFileDataError>(e),
        },
{
    let ghost parts = spec_list_values(path@);
    let mut return_str = String::new();
    let mut i: usize = 0;
    proof {
        reveal_strlit("/");
        assert(parts.take(0) =~= Seq::<Bencode>::empty());
    }
    while i < path.len()
        invariant
            parts == spec_list_values(path@),
            0 <= i <= path@.len(),
            spec_string_of_path(parts.take(i as int)) == Ok::<Seq<char>, TorrentFileDataError>(return_str@),
        decreases path@.len() - i,
    {
        assert(parts.take(i + 1).drop_last() =~= parts.take(i as int));
        assert(parts.take(i + 1).last() == path@[i as int]@);
        match &path[i] {
            ValuesBencoding::String(dir) => {
                let text = vec_u8_to_string(dir.as_slice());
                let ghost before = return_str@;
                proof {
                    reveal_strlit("/");
                }
                return_str.append("/");
                return_str.append(text.as_str());
                assert(return_str@ =~= before + seq!['/'] + spec_utf8_text(dir@));
            },
            _ => {
                assert(spec_string_of_path(parts) == Err::<Seq<char>, TorrentFileDataError>(
                    TorrentFileDataError::Format(Section::Path),
                )) by {
                    lemma_string_of_path_err_stays(parts, i + 1);
                }
                return Err(TorrentFileDataError::Format(Section::Path));
            },
        }
        i = i + 1;
    }
    assert(parts.take(i as int) =~= parts);
    Ok(return_str)
}

/// Once a prefix of the parts fails, the whole path fails with the same error.
pub proof fn lemma_string_of_path_err_stays(parts: Seq<Bencode>, k: int)
    requires
        0 <= k <= parts.len(),
        spec_string_of_path(parts.take(k)) is Err,
    ensures
        spec_string_of_path(parts) == spec_string_of_path(parts.take(k)),
    decreases parts.len() - k,
{
    if k == parts.len() {
        assert(parts.take(k) =~= parts);
    } else {
        assert(parts.take(k + 1).drop_last() =~= parts.take(k));
        lemma_string_of_path_err_stays(parts, k + 1);
    }
}

/// Once a prefix of the files fails, all the files fail with the same error.
pub proof fn lemma_paths_err_stays(files: Seq<Bencode>, k: int)
    requires
        0 <= k <= files.len(),
        spec_paths(files.take(k)) is Err,
    ensures
        spec_paths(files) == spec_paths(files.take(k)),
    decreases files.len() - k,
{
    if k == files.len() {
        assert(files.take(k) =~= files);
    } else {
        assert(files.take(k + 1).drop_last() =~= files.take(k));
        lemma_paths_err_stays(files, k + 1);
    }
}

/// Once a prefix of the files fails, all the files fail with the same error.
pub proof fn lemma_sizes_err_stays(files: Seq<Bencode>, k: int)
    requires
        0 <= k <= files.len(),
        spec_sizes(files.take(k)) is Err,
    ensures
        spec_sizes(files) == spec_sizes(files.take(k)),
    decreases files.len() - k,
{
    if k == files.len() {
        assert(files.take(k) =~= files);
    } else {
        assert(files.take(k + 1).drop_last() =~= files.take(k));
        lemma_sizes_err_stays(files, k + 1);
    }
}

/// The paths of the files that are dictionaries; see [`spec_paths`].
fn paths_of_files(list_files: &Vec<ValuesBencoding>) -> (res: Result<Vec<String>, TorrentFileDataError>)
    ensures
        match spec_paths(spec_list_values(list_files@)) {
            Ok(p) => res matches Ok(r) && r@.len() == p.len() && forall|k: int| 0 <= k < p.len() ==> (#[trigger] r@[k])@ == p[k],
            Err(e) => res == Err::<Vec<String>, TorrentFileDataError>(e),
        },
{
    let ghost files = spec_list_values(list_files@);
    let mut return_vec: Vec<String> = Vec::new();
    let mut i: usize = 0;
    assert(files.take(0) =~= Seq::<Bencode>::empty());
    while i < list_files.len()
        invariant
            files == spec_list_values(list_files@),
            0 <= i <= list_files@.len(),
            spec_paths(files.take(i as int)) matches Ok(p) && p.len() == return_vec@.len() && forall|k: int|
                0 <= k < p.len() ==> (#[trigger] return_vec@[k])@ == p[k],
        decreases list_files@.len() - i,
    {
        assert(files.take(i + 1).drop_last() =~= files.take(i as int));
        assert(files.take(i + 1).last() == list_files@[i as int]@);
        if let ValuesBencoding::Dic(dic_file) = &list_files[i] {
            let found = get_value(dic_file, PATH);
            match found {
                Some(ValuesBencoding::List(path)) => {
                    assert(spec_list_values(path@) =~= found->0@->List_0);
                    match string_of_path(path) {
                        Ok(str_path) => {
                            return_vec.push(str_path);
                        },
                        Err(e) => {
                            proof {
                                lemma_paths_err_stays(files, i + 1);
                            }
                            return Err(e);
                        },
                    }
                },
                Some(_) => {
                    proof {
                        lemma_paths_err_stays(files, i + 1);
                    }
                    return Err(TorrentFileDataError::Format(Section::Length));
                },
                None => {
                    proof {
                        lemma_paths_err_stays(files, i + 1);
                    }
                    return Err(TorrentFileDataError::NotFound(Section::Length));
                },
            }
        }
        i = i + 1;
    }
    assert(files.take(i as int) =~= files);
    Ok(return_vec)
}

/// The lengths of the files that are dictionaries; see [`spec_sizes`].
fn sizes_of_files(list_files: &Vec<ValuesBencoding>) -> (res: Result<Vec<i64>, TorrentFileDataError>)
    ensures
        match spec_sizes(spec_list_values(list_files@)) {
            Ok(p) => res matches Ok(r) && r@.len() == p.len() && forall|k: int| 0 <= k < p.len() ==> (#[trigger] r@[k]) == p[k],
            Err(e) => res == Err::<Vec<i64>, TorrentFileDataError>(e),
        },
{
    let ghost files = spec_list_values(list_files@);
    let mut vec_sizes: Vec<i64> = Vec::new();
    let mut i: usize = 0;
    assert(files.take(0) =~= Seq::<Bencode>::empty());
    while i < list_files.len()
        invariant
            files == spec_list_values(list_files@),
            0 <= i <= list_files@.len(),
            spec_sizes(files.take(i as int)) matches Ok(p) && p.len() == vec_sizes@.len() && forall|k: int|
                0 <= k < p.len() ==> (#[trigger] vec_sizes@[k]) == p[k],
        decreases list_files@.len() - i,
    {
        assert(files.take(i + 1).drop_last() =~= files.take(i as int));
        assert(files.take(i + 1).last() == list_files@[i as int]@);
        if let ValuesBencoding::Dic(dic_file) = &list_files[i] {
            match get_value(dic_file, LENGTH) {
                Some(ValuesBencoding::Integer(length)) => {
                    vec_sizes.push(*length);
                },
                Some(_) => {
                    proof {
                        lemma_sizes_err_stays(files, i + 1);
                    }
                    return Err(TorrentFileDataError::Format(Section::Length));
                },
                None => {
                    proof {
                        lemma_sizes_err_stays(files, i + 1);
                    }
                    return Err(TorrentFileDataError::NotFound(Section::Length));
                },
            }
        }
        i = i + 1;
    }
    assert(files.take(i as int) =~= files);
    Ok(vec_sizes)
}

/// The paths of the files of a torrent with a directory; none where there is no list of
/// files.
fn init_path(dic_info: &DicValues) -> (res: Result<Vec<String>, TorrentFileDataError>)
    ensures
        match spec_get(dic_info@, FILES) {
            Some(Bencode::List(files)) => match spec_paths(files) {
                Ok(p) => res matches Ok(r) && r@.len() == p.len() && forall|k: int| 0 <= k < p.len() ==> (#[trigger] r@[k])@ == p[k],
                Err(e) => res == Err::<Vec<String>, TorrentFileDataError>(e),
            },
            Some(_) => res == Err::<Vec<String>, TorrentFileDataError>(TorrentFileDataError::Format(Section::Files)),
            None => res matches Ok(r) && r@.len() == 0,
        },
{
    let found = get_value(dic_info, FILES);
    match found {
        Some(ValuesBencoding::List(list_files)) => {
            assert(spec_list_values(list_files@) =~= found->0@->List_0);
            paths_of_files(list_files)
        },
        Some(_) => Err(TorrentFileDataError::Format(Section::Files)),
        None => Ok(Vec::new()),
    }
}

/// The lengths of the files of a torrent with a directory.
fn init_size_files_multiple(dic_info: &DicValues) -> (res: Result<Vec<i64>, TorrentFileDataError>)
    ensures
        match spec_get(dic_info@, FILES) {
            Some(Bencode::List(files)) => match spec_sizes(files) {
                Ok(p) => res matches Ok(r) && r@.len() == p.len() && forall|k: int| 0 <= k < p.len() ==> (#[trigger] r@[k]) == p[k],
                Err(e) => res == Err::<Vec<i64>, TorrentFileDataError>(e),
            },
            Some(_) => res == Err::<Vec<i64>, TorrentFileDataError>(TorrentFileDataError::Format(Section::Files)),
            None => res == Err::<Vec<i64>, TorrentFileDataError>(TorrentFileDataError::NotFound(Section::Files)),
        },
{
    let found = get_value(dic_info, FILES);
    match found {
        Some(ValuesBencoding::List(list_files)) => {
            assert(spec_list_values(list_files@) =~= found->0@->List_0);
            sizes_of_files(list_files)
        },
        Some(_) => Err(TorrentFileDataError::Format(Section::Files)),
        None => Err(TorrentFileDataError::NotFound(Section::Files)),
    }
}

/// The files of a torrent with a directory; see [`spec_files_data`].
fn init_list_files_data(dic_info: &DicValues) -> (res: Result<Vec<FileData>, TorrentFileDataError>)
    requires
        !(spec_get(dic_info@, FILES) is None),
    ensures
        match spec_files_data(dic_info@) {
            Ok(files) => res matches Ok(r) && r@.len() == files.len() && forall|k: int|
                0 <= k < files.len() ==> (#[trigger] r@[k]).path@ == files[k].0 && r@[k].file_length == files[k].1,
            Err(e) => res == Err::<Vec<FileData>, TorrentFileDataError>(e),
        },
{
    let paths = init_path(dic_info)?;
    let sizes = init_size_files_multiple(dic_info)?;
    if paths.len() != sizes.len() {
        return Err(TorrentFileDataError::Format(Section::FilesData));
    }
    let mut list_files_data: Vec<FileData> = Vec::new();
    let mut i: usize = 0;
    while i < paths.len()
        invariant
            paths@.len() == sizes@.len(),
            0 <= i <= paths@.len(),
            list_files_data@.len() == i,
            forall|k: int|
                0 <= k < i ==> (#[trigger] list_files_data@[k]).path@ == paths@[k]@ && list_files_data@[k].file_length
                    == sizes@[k] as u64,
        decreases paths@.len() - i,
    {
        let file_data = FileData { path: paths[i].clone(), file_length: sizes[i] as u64 };
        list_files_data.push(file_data);
        i = i + 1;
    }
    Ok(list_files_data)
}

/// The file, or the directory of files, that the torrent downloads.
pub(crate) fn init_target_files_data(dic_info: &DicValues, name: String) -> (res: Result<TargetFilesData, TorrentFileDataError>)
    ensures
        match spec_target(dic_info@, name@) {
            Ok(t) => res matches Ok(r) && spec_target_model(r) == t,
            Err(e) => res == Err::<TargetFilesData, TorrentFileDataError>(e),
        },
{
    if is_single_file(dic_info) {
        let length = init_size_files_single(dic_info)?;
        Ok(TargetFilesData::SingleFile { file_name: name, file_length: length as u64 })
    } else {
        let list_of_files_data = init_list_files_data(dic_info)?;
        let res = TargetFilesData::MultipleFiles { dir_name: name, list_of_files_data };
        assert(spec_target_model(res)->Multiple_1 =~= spec_files_data(dic_info@)->Ok_0);
        Ok(res)
    }
}

/// The total length of the file or files.
fn init_total_length(files_data: &TargetFilesData) -> (res: u64)
    requires
        spec_total_length(spec_target_model(*files_data)) <= u64::MAX,
    ensures
        res == spec_total_length(spec_target_model(*files_data)),
{
    match files_data {
        TargetFilesData::SingleFile { file_name: _, file_length } => *file_length,
        TargetFilesData::MultipleFiles { dir_name: _, list_of_files_data } => {
            let ghost files = spec_target_model(*files_data)->Multiple_1;
            let mut total_size: u64 = 0;
            let mut i: usize = 0;
            proof {
                lemma_sum_prefix(files, 0);
                assert(files.take(0) =~= Seq::<(Seq<char>, int)>::empty());
            }
            while i < list_of_files_data.len()
                invariant
                    files == spec_target_model(*files_data)->Multiple_1,
                    *files_data == (TargetFilesData::MultipleFiles { dir_name: files_data->dir_name, list_of_files_data: *list_of_files_data }),
                    spec_sum_lengths(files) <= u64::MAX,
                    0 <= i <= list_of_files_data@.len(),
                    total_size == spec_sum_lengths(files.take(i as int)),
                decreases list_of_files_data@.len() - i,
            {
                assert(files.take(i + 1).drop_last() =~= files.take(i as int));
                proof {
                    lemma_sum_prefix(files, i + 1);
                }
                total_size = total_size + list_of_files_data[i].file_length;
                i = i + 1;
            }
            assert(files.take(i as int) =~= files);
            total_size
        },
    }
}

/// The URLs of one list of trackers, in a random order; `None` where an item is not a byte
/// string.
fn tier_urls(list_values: &Vec<ValuesBencoding>) -> (res: Option<Vec<String>>)
    ensures
        match spec_tier_urls(spec_list_values(list_values@)) {
            Some(urls) => res matches Some(r) && spec_is_shuffle_of(spec_strings(r@), urls),
            None => res is None,
        },
{
    let ghost tier = spec_list_values(list_values@);
    let mut urls: Vec<Vec<u8>> = Vec::new();
    let mut i: usize = 0;
    assert(tier.take(0) =~= Seq::<Bencode>::empty());
    while i < list_values.len()
        invariant
            tier == spec_list_values(list_values@),
            0 <= i <= list_values@.len(),
            spec_tier_urls(tier.take(i as int)) == Some(spec_byte_strings(urls@)),
        decreases list_values@.len() - i,
    {
        assert(tier.take(i + 1).drop_last() =~= tier.take(i as int));
        assert(tier.take(i + 1).last() == list_values@[i as int]@);
        match &list_values[i] {
            ValuesBencoding::String(url) => {
                let ghost before = spec_byte_strings(urls@);
                urls.push(url.clone());
                assert(spec_byte_strings(urls@) =~= before.push(url@));
            },
            _ => {
                proof {
                    lemma_tier_urls_none_stays(tier, i + 1);
                }
                return None;
            },
        }
        i = i + 1;
    }
    assert(tier.take(i as int) =~= tier);
    let ghost before = spec_byte_strings(urls@);
    shuffle_urls(&mut urls);
    let mut out: Vec<String> = Vec::new();
    let mut j: usize = 0;
    while j < urls.len()
        invariant
            0 <= j <= urls@.len(),
            out@.len() == j,
            forall|k: int| 0 <= k < j ==> (#[trigger] out@[k])@ == spec_utf8_text(urls@[k]@),
        decreases urls@.len() - j,
    {
        out.push(vec_u8_to_string(urls[j].as_slice()));
        j = j + 1;
    }
    proof {
        let after = spec_byte_strings(urls@);
        assert(spec_strings(out@) =~= spec_url_texts(after));
    }
    Some(out)
}

/// The texts of strings.
pub open spec fn spec_strings(v: Seq<String>) -> Seq<Seq<char>> {
    Seq::new(v.len(), |i: int| v[i]@)
}

/// Once an item of a prefix is not a byte string, the tier is not a list of URLs.
pub proof fn lemma_tier_urls_none_stays(tier: Seq<Bencode>, k: int)
    requires
        0 <= k <= tier.len(),
        spec_tier_urls(tier.take(k)) is None,
    ensures
        spec_tier_urls(tier) is None,
    decreases tier.len() - k,
{
    if k == tier.len() {
        assert(tier.take(k) =~= tier);
    } else {
        assert(tier.take(k + 1).drop_last() =~= tier.take(k));
        lemma_tier_urls_none_stays(tier, k + 1);
    }
}


/// The URLs of the trackers: tier after tier, the URLs of each tier in a random order; none
/// where there is no list of lists of trackers.
fn init_tracker_list(dic_torrent: &DicValues) -> (res: Result<Vec<String>, TorrentFileDataError>)
    ensures
        match spec_get(dic_torrent@, ANNOUNCE_LIST) {
            Some(Bencode::List(tiers)) => if spec_tracker_tiers_ok(tiers) {
                res matches Ok(r) && spec_shuffled_tiers(spec_strings(r@), tiers)
            } else {
                res == Err::<Vec<String>, TorrentFileDataError>(TorrentFileDataError::Format(Section::TrackerList))
            },
            _ => res matches Ok(r) && r@.len() == 0,
        },
{
    let found = get_value(dic_torrent, ANNOUNCE_LIST);
    match found {
        Some(ValuesBencoding::List(list_of_lists)) => {
            let ghost tiers = spec_list_values(list_of_lists@);
            assert(tiers =~= found->0@->List_0);
            let mut list_tracker_url: Vec<String> = Vec::new();
            let mut i: usize = 0;
            assert(tiers.take(0) =~= Seq::<Bencode>::empty());
            assert(spec_strings(list_tracker_url@) =~= Seq::<Seq<char>>::empty());
            while i < list_of_lists.len()
                invariant
                    tiers == spec_list_values(list_of_lists@),
                    spec_get(dic_torrent@, ANNOUNCE_LIST) == Some(Bencode::List(tiers)),
                    0 <= i <= list_of_lists@.len(),
                    spec_tracker_tiers_ok(tiers.take(i as int)),
                    spec_shuffled_tiers(spec_strings(list_tracker_url@), tiers.take(i as int)),
                decreases list_of_lists@.len() - i,
            {
                let ghost prefix = tiers.take(i as int);
                assert(tiers.take(i + 1).drop_last() =~= prefix);
                assert(tiers.take(i + 1).last() == list_of_lists@[i as int]@);
                let item = &list_of_lists[i];
                match item {
                    ValuesBencoding::List(list_values) => {
                        assert(spec_list_values(list_values@) =~= item@->List_0);
                        match tier_urls(list_values) {
                            Some(mut urls) => {
                                let ghost before = spec_strings(list_tracker_url@);
                                let ghost seg = spec_strings(urls@);
                                list_tracker_url.append(&mut urls);
                                proof {
                                    broadcast use vstd::seq_lib::group_to_multiset_ensures;
                                    let after = spec_strings(list_tracker_url@);
                                    assert(after =~= before + seg);
                                    let p = choose|p: Seq<Seq<u8>>| #[trigger] p.to_multiset() == spec_tier_urls(item@->List_0)->0.to_multiset()
                                        && seg == spec_url_texts(p);
                                    assert(p.to_multiset().len() == p.len());
                                    assert(after.skip(after.len() - seg.len()) =~= seg);
                                    assert(after.take(after.len() - seg.len()) =~= before);
                                    let next = tiers.take(i + 1);
                                    assert forall|k: int| 0 <= k < next.len() implies (#[trigger] next[k]) is List
                                        && spec_tier_urls(next[k]->List_0) is Some by {
                                        if k < i {
                                            assert(next[k] == prefix[k]);
                                        }
                                    }
                                }
                            },
                            None => {
                                assert(!spec_tracker_tiers_ok(tiers)) by {
                                    assert(tiers[i as int] == item@);
                                }
                                return Err(TorrentFileDataError::Format(Section::TrackerList));
                            },
                        }
                    },
                    _ => {
                        assert(!spec_tracker_tiers_ok(tiers)) by {
                            assert(tiers[i as int] == item@);
                        }
                        return Err(TorrentFileDataError::Format(Section::TrackerList));
                    },
                }
                i = i + 1;
            }
            assert(tiers.take(i as int) =~= tiers);
            Ok(list_tracker_url)
        },
        _ => Ok(Vec::new()),
    }
}

impl TorrentFileData {
    /// The data of a .torrent file from its bencoded dictionary; see
    /// [`spec_torrent_file_data`]. The URLs of the list of trackers come tier after tier,
    /// each tier in a random order.
    pub fn new(dic_torrent: DicValues) -> (res: Result<TorrentFileData, TorrentFileDataError>)
        requires
            spec_fits(dic_torrent@),
        ensures
            match spec_torrent_file_data(dic_torrent@) {
                Ok(m) => res matches Ok(t) && t.model() == m && match spec_get(dic_torrent@, ANNOUNCE_LIST) {
                    Some(Bencode::List(tiers)) => spec_shuffled_tiers(spec_strings(t.url_tracker_list@), tiers),
                    _ => t.url_tracker_list@.len() == 0,
                },
                Err(e) => res == Err::<TorrentFileData, TorrentFileDataError>(e),
            },
    {
        let info = init_info(&dic_torrent)?;
        let name = init_name(&info)?;
        let piece_length = init_piece_length(&info)?;
        let target_files_data = init_target_files_data(&info, name)?;
        let total_length = init_total_length(&target_files_data);
        let total_amount_of_pieces = init_total_amount_pieces(total_length, piece_length);
        let url_tracker_main = init_tracker_main(&dic_torrent)?;
        let url_tracker_list = init_tracker_list(&dic_torrent)?;
        let sha1_info_hash = init_info_hash(&info)?;
        let sha1_pieces = init_pieces(&info)?;
        Ok(TorrentFileData {
            url_tracker_main,
            url_tracker_list,
            sha1_pieces,
            sha1_info_hash,
            piece_length,
            total_length,
            total_amount_of_pieces,
            target_files_data,
        })
    }

    /// The name that stands for the torrent; see [`spec_representative_name`].
    pub fn get_torrent_representative_name(&self) -> (res: String)
        ensures
            res@ == spec_representative_name(self.target_files_data),
    {
        match &self.target_files_data {
            TargetFilesData::SingleFile { file_name, .. } => match file_stem_text(file_name.as_str()) {
                Some(stem) => stem,
                None => UNNAMED.to_string(),
            },
            TargetFilesData::MultipleFiles { dir_name, .. } => dir_name.clone(),
        }
    }

    /// The main tracker's URL.
    pub fn get_tracker_main(&self) -> (res: String)
        ensures
            res@ == self.url_tracker_main@,
    {
        self.url_tracker_main.clone()
    }

    /// The info hash: the SHA-1 digest of the bencoded info dictionary.
    pub fn get_info_hash(&self) -> (res: Vec<u8>)
        ensures
            res@ == self.sha1_info_hash@,
    {
        self.sha1_info_hash.clone()
    }

    /// The total length of the file or files.
    pub fn get_total_length(&self) -> (res: u64)
        ensures
            res == self.total_length,
    {
        self.total_length
    }

    /// The length of a piece, the last one aside.
    pub fn get_piece_length(&self) -> (res: u64)
        ensures
            res == self.piece_length,
    {
        self.piece_length
    }

    /// The number of pieces.
    pub fn get_total_amount_pieces(&self) -> (res: usize)
        ensures
            res == self.total_amount_of_pieces,
    {
        self.total_amount_of_pieces
    }

    /// The SHA-1 hash of a piece: the 20 bytes at its position among the hashes, fewer where
    /// the hashes end early, none for a piece index past the last piece.
    pub fn get_piece_sha1(&self, piece_index: usize) -> (res: Vec<u8>)
        requires
            piece_index < self.total_amount_of_pieces ==> piece_index * 20 + 20 <= usize::MAX,
        ensures
            res@ == spec_piece_sha1(self.sha1_pieces@, self.total_amount_of_pieces as int, piece_index as int),
    {
        let mut pieces_return: Vec<u8> = Vec::new();
        if piece_index >= self.get_total_amount_pieces() {
            return pieces_return;
        }
        let start = piece_index * SHA1_LENGTH;
        if start >= self.sha1_pieces.len() {
            return pieces_return;
        }
        let mut i: usize = start;
        while i < start + SHA1_LENGTH && i < self.sha1_pieces.len()
            invariant
                start == piece_index * 20,
                start + 20 <= usize::MAX,
                start <= i <= start + 20,
                i <= self.sha1_pieces@.len(),
                pieces_return@ == self.sha1_pieces@.subrange(start as int, i as int),
            decreases start + 20 - i,
        {
            pieces_return.push(self.sha1_pieces[i]);
            i = i + 1;
        }
        pieces_return
    }

    /// Whether the torrent has the given info hash.
    pub fn has_expected_info_hash(&self, info_hash: &[u8]) -> (res: bool)
        ensures
            res == (info_hash@ == self.sha1_info_hash@),
    {
        bytes_equal(info_hash, self.sha1_info_hash.as_slice())
    }

    /// Whether `piece_index` is the index of the last piece.
    fn is_last_piece_index(&self, piece_index: usize) -> (res: bool)
        requires
            self.total_amount_of_pieces > 0,
        ensures
            res == (piece_index == self.total_amount_of_pieces - 1),
    {
        self.total_amount_of_pieces - 1 == piece_index
    }

    /// The length of a piece: the piece length, but for the last piece, which holds what is
    /// left of the total length.
    pub fn calculate_piece_lenght(&self, piece_index: usize) -> (res: Result<u64, TorrentFileDataError>)
        requires
            self.well_formed(),
        ensures
            res matches Ok(l) && l == spec_piece_len(self.model(), piece_index as int),
    {
        proof {
            lemma_pieces_cover(self.total_length as int, self.piece_length as int);
        }
        if self.is_last_piece_index(piece_index) {
            let std_piece_lenght = self.get_piece_length();
            let total_amount_pieces = self.get_total_amount_pieces() as u64;
            let total_length = self.get_total_length();
            assert(std_piece_lenght * (total_amount_pieces - 1) <= total_length) by (nonlinear_arith)
                requires
                    total_length as int >= std_piece_lenght as int * (total_amount_pieces - 1),
                    total_amount_pieces >= 1;
            Ok(total_length - (std_piece_lenght * (total_amount_pieces - 1)))
        } else {
            Ok(self.piece_length)
        }
    }

    /// Whether a piece past the torrent's last piece is marked as had.
    fn is_any_spare_bit_set(&self, bitfield: &[PieceStatus]) -> (res: bool)
        ensures
            res == exists|k: int|
                self.total_amount_of_pieces <= k < bitfield@.len() && #[trigger] bitfield@[k]
                    == PieceStatus::ValidAndAvailablePiece,
    {
        let mut i: usize = self.total_amount_of_pieces;
        while i < bitfield.len()
            invariant
                self.total_amount_of_pieces <= i,
                forall|k: int|
                    self.total_amount_of_pieces <= k < i && k < bitfield@.len() ==> #[trigger] bitfield@[k]
                        != PieceStatus::ValidAndAvailablePiece,
            decreases bitfield@.len() - i,
        {
            if bitfield[i] == PieceStatus::ValidAndAvailablePiece {
                return true;
            }
            i = i + 1;
        }
        false
    }

    /// Checks a peer's bitfield: it covers every piece, and marks no piece past the last one.
    pub fn check_bitfield(&self, bitfield: &[PieceStatus]) -> (res: Result<(), TorrentFileDataError>)
        ensures
            res matches Ok(_) <==> bitfield@.len() >= self.total_amount_of_pieces && !exists|k: int|
                self.total_amount_of_pieces <= k < bitfield@.len() && #[trigger] bitfield@[k]
                    == PieceStatus::ValidAndAvailablePiece,
            res is Err ==> (res matches Err(TorrentFileDataError::CheckingBitfield(t)) && t@ == spec_bitfield_failure_text(
                self,
                bitfield@,
            )),
    {
        if bitfield.len() < self.get_total_amount_pieces() {
            return Err(TorrentFileDataError::CheckingBitfield(String::from_str(BITFIELD_LENGTH_TEXT)));
        }
        if self.is_any_spare_bit_set(bitfield) {
            return Err(TorrentFileDataError::CheckingBitfield(String::from_str(SPARE_BITS_TEXT)));
        }
        Ok(())
    }

    /// Checks a request of `amount_of_bytes` bytes from `beginning_byte_index` in a piece: it
    /// ends within the piece, and asks for no more than a block.
    pub fn check_requested_block(&self, piece_index: usize, beginning_byte_index: u32, amount_of_bytes: u32) -> (res: Result<(), TorrentFileDataError>)
        requires
            self.well_formed(),
        ensures
            res matches Ok(_) <==> beginning_byte_index + amount_of_bytes <= spec_piece_len(self.model(), piece_index as int)
                && amount_of_bytes <= BLOCK_BYTES,
            res is Err ==> (res matches Err(TorrentFileDataError::CheckingRequestBlock(t)) && t@ == (
            if beginning_byte_index + amount_of_bytes > spec_piece_len(self.model(), piece_index as int) {
                BLOCK_PAST_PIECE_TEXT@
            } else {
                BLOCK_TOO_LARGE_TEXT@
            })),
    {
        let piece_length = self.calculate_piece_lenght(piece_index)?;
        if beginning_byte_index as u64 + amount_of_bytes as u64 > piece_length {
            return Err(TorrentFileDataError::CheckingRequestBlock(String::from_str(BLOCK_PAST_PIECE_TEXT)));
        }
        if amount_of_bytes > BLOCK_BYTES {
            return Err(TorrentFileDataError::CheckingRequestBlock(String::from_str(BLOCK_TOO_LARGE_TEXT)));
        }
        Ok(())
    }
}

/// All pieces but the last are whole: they fit in the total length.
pub proof fn lemma_pieces_cover(total: int, piece_length: int)
    requires
        total >= 0,
        piece_length > 0,
        spec_amount_of_pieces(total, piece_length) > 0,
    ensures
        piece_length * (spec_amount_of_pieces(total, piece_length) - 1) <= total,
        total - piece_length * (spec_amount_of_pieces(total, piece_length) - 1) <= piece_length,
        total - piece_length * (spec_amount_of_pieces(total, piece_length) - 1) > 0,
{
    let q = total / piece_length;
    let r = total % piece_length;
    assert(total == piece_length * q + r && 0 <= r < piece_length) by (nonlinear_arith)
        requires piece_length > 0, q == total / piece_length, r == total % piece_length;
    if r > 0 {
        assert(piece_length * (q + 1 - 1) == piece_length * q);
    } else {
        assert(q > 0);
        assert(piece_length * (q - 1) == piece_length * q - piece_length) by (nonlinear_arith);
    }
}

/// The SHA-1 hash of a piece among the hashes: the 20 bytes at its position, fewer where the
/// hashes end early, none past the last piece.
pub open spec fn spec_piece_sha1(pieces: Seq<u8>, amount: int, index: int) -> Seq<u8> {
    if index >= amount || index * 20 >= pieces.len() {
        Seq::empty()
    } else if index * 20 + 20 <= pieces.len() {
        pieces.subrange(index * 20, index * 20 + 20)
    } else {
        pieces.subrange(index * 20, pieces.len() as int)
    }
}

/// The length of a piece: the piece length, but for the last piece, which holds what is left
/// of the total length.
pub open spec fn spec_piece_len(t: TorrentModel, index: int) -> int {
    if index == t.total_amount_of_pieces - 1 {
        t.total_length - t.piece_length * (t.total_amount_of_pieces - 1)
    } else {
        t.piece_length
    }
}

/// The total length of the file or files, where it fits a `u64`.
pub(crate) fn checked_total_length(files_data: &TargetFilesData) -> (res: Option<u64>)
    ensures
        match res {
            Some(t) => t == spec_total_length(spec_target_model(*files_data)),
            None => spec_total_length(spec_target_model(*files_data)) > u64::MAX,
        },
{
    match files_data {
        TargetFilesData::SingleFile { file_name: _, file_length } => Some(*file_length),
        TargetFilesData::MultipleFiles { dir_name: _, list_of_files_data } => {
            let ghost files = spec_target_model(*files_data)->Multiple_1;
            let mut total_size: u64 = 0;
            let mut i: usize = 0;
            assert(files.take(0) =~= Seq::<(Seq<char>, int)>::empty());
            while i < list_of_files_data.len()
                invariant
                    files == spec_target_model(*files_data)->Multiple_1,
                    *files_data == (TargetFilesData::MultipleFiles { dir_name: files_data->dir_name, list_of_files_data: *list_of_files_data }),
                    files.len() == list_of_files_data@.len(),
                    forall|k: int| 0 <= k < files.len() ==> (#[trigger] files[k]).1 == list_of_files_data@[k].file_length,
                    0 <= i <= list_of_files_data@.len(),
                    total_size == spec_sum_lengths(files.take(i as int)),
                decreases list_of_files_data@.len() - i,
            {
                assert(files.take(i + 1).drop_last() =~= files.take(i as int));
                match total_size.checked_add(list_of_files_data[i].file_length) {
                    Some(t) => {
                        total_size = t;
                    },
                    None => {
                        proof {
                            assert(files.take(i + 1).last() == files[i as int]);
                            assert(spec_sum_lengths(files.take(i + 1)) > u64::MAX);
                            assert forall|k: int| 0 <= k < files.len() implies (#[trigger] files[k]).1 >= 0 by {
                                assert(files[k].1 == list_of_files_data@[k].file_length);
                            }
                            lemma_sum_prefix(files, i + 1);
                        }
                        return None;
                    },
                }
                i = i + 1;
            }
            assert(files.take(i as int) =~= files);
            Some(total_size)
        },
    }
}

} // verus!
