//! Reading the listing of the container tool.
//!
//! The tool is asked for one line per image, with the name, a size label and
//! a creation label separated by tabs. The format is one of bytes: lines end
//! at a line feed, fields at a tab. A line with fewer than three fields says
//! nothing; fields after the third are ignored.

use vstd::prelude::*;
use vstd::string::StringSliceAdditionalSpecFns;
use vstd::utf8::{
    decode_utf8, decode_utf8_encode_utf8, encode_utf8, encode_utf8_valid_utf8,
    is_char_boundary, is_char_boundary_start_end_of_seq, valid_utf8,
};
use crate::text::{cut, lemma_ascii_byte_is_a_character};

verus! {

/// The format that the container tool is asked to list its images in: name
/// and tag, size, and creation time, separated by tabs.
pub const LISTING_FORMAT: &'static str = "{{.Repository}}:{{.Tag}}\t{{.Size}}\t{{.CreatedAt}}";

/// How many images are reported at most.
pub const MAX_REPORTED_IMAGES: usize = 10;

/// The byte that ends a line.
pub const LINE_FEED: u8 = 10;

/// The byte that may stand before a line feed and then belongs to the line
/// ending.
pub const CARRIAGE_RETURN: u8 = 13;

/// The byte that separates the fields of a line.
pub const TAB: u8 = 9;

/// One image as the tool lists it. The labels are the tool's own wording.
#[derive(Debug)]
pub struct ImageEntry {
    pub name: String,
    pub size_label: String,
    pub created_label: String,
}

/// What an [`ImageEntry`] holds, as text.
pub struct ImageView {
    pub name: Seq<char>,
    pub size_label: Seq<char>,
    pub created_label: Seq<char>,
}

impl View for ImageEntry {
    type V = ImageView;

    open spec fn view(&self) -> ImageView {
        ImageView {
            name: self.name@,
            size_label: self.size_label@,
            created_label: self.created_label@,
        }
    }
}

impl Clone for ImageEntry {
    fn clone(&self) -> (copy: Self)
        ensures
            copy == *self,
    {
        ImageEntry {
            name: self.name.clone(),
            size_label: self.size_label.clone(),
            created_label: self.created_label.clone(),
        }
    }
}

/// What a list of entries holds, as text.
pub open spec fn views_of(entries: Seq<ImageEntry>) -> Seq<ImageView> {
    entries.map_values(|entry: ImageEntry| entry@)
}

/// The position of the first `separator` in `bytes`, or the length of
/// `bytes` where it holds none.
pub open spec fn first_index_of(bytes: Seq<u8>, separator: u8) -> int
    decreases bytes.len(),
{
    if bytes.len() == 0 || bytes[0] == separator {
        0
    } else {
        1 + first_index_of(bytes.drop_first(), separator)
    }
}

/// The pieces of `bytes` between its separators: one more than it holds
/// separators, empty pieces included.
pub open spec fn split(bytes: Seq<u8>, separator: u8) -> Seq<Seq<u8>>
    decreases bytes.len(),
{
    let at = first_index_of(bytes, separator);
    if 0 <= at < bytes.len() {
        seq![bytes.take(at)] + split(bytes.skip(at + 1), separator)
    } else {
        seq![bytes]
    }
}

/// A line without the carriage return that stood before its line feed.
pub open spec fn without_carriage_return(line: Seq<u8>) -> Seq<u8> {
    if line.len() > 0 && line.last() == CARRIAGE_RETURN {
        line.drop_last()
    } else {
        line
    }
}

/// The lines of `bytes`. A line ends at a line feed, and a carriage return
/// directly before the line feed is part of the ending. What follows the
/// last line feed is a line too, unless nothing follows.
pub open spec fn text_lines(bytes: Seq<u8>) -> Seq<Seq<u8>>
    decreases bytes.len(),
{
    let at = first_index_of(bytes, LINE_FEED);
    if bytes.len() == 0 {
        Seq::empty()
    } else if 0 <= at < bytes.len() {
        seq![without_carriage_return(bytes.take(at))] + text_lines(bytes.skip(at + 1))
    } else {
        seq![bytes]
    }
}

/// What one line says: an image where the line has three fields or more,
/// nothing otherwise.
pub open spec fn record_of(line: Seq<u8>) -> Option<ImageView> {
    let fields = split(line, TAB);
    if fields.len() >= 3 {
        Some(
            ImageView {
                name: decode_utf8(fields[0]),
                size_label: decode_utf8(fields[1]),
                created_label: decode_utf8(fields[2]),
            },
        )
    } else {
        None
    }
}

/// Every image that a listing names, in the order of its lines.
pub open spec fn all_records(bytes: Seq<u8>) -> Seq<ImageView> {
    text_lines(bytes).filter_map(|line: Seq<u8>| record_of(line))
}

/// The images that are reported of a listing: the first
/// [`MAX_REPORTED_IMAGES`] that it names, or all of them where it names
/// fewer.
pub open spec fn listed_images(bytes: Seq<u8>) -> Seq<ImageView> {
    if all_records(bytes).len() > MAX_REPORTED_IMAGES {
        all_records(bytes).take(MAX_REPORTED_IMAGES as int)
    } else {
        all_records(bytes)
    }
}

/// The first separator stands where a separator stands and none stands
/// before.
pub proof fn lemma_first_index_of(bytes: Seq<u8>, separator: u8, at: int)
    requires
        0 <= at <= bytes.len(),
        forall|k: int| 0 <= k < at ==> bytes[k] != separator,
        at < bytes.len() ==> bytes[at] == separator,
    ensures
        first_index_of(bytes, separator) == at,
    decreases at,
{
    if at > 0 {
        let rest = bytes.drop_first();
        assert forall|k: int| 0 <= k < at - 1 implies rest[k] != separator by {
            assert(rest[k] == bytes[k + 1]);
        }
        lemma_first_index_of(rest, separator, at - 1);
    }
}

/// The position of the first `separator` in `bytes[from..to]`, or `to`.
fn find_byte(bytes: &[u8], from: usize, to: usize, separator: u8) -> (at: usize)
    requires
        from <= to <= bytes.len(),
    ensures
        from <= at <= to,
        at - from == first_index_of(bytes@.subrange(from as int, to as int), separator),
        at < to ==> bytes@[at as int] == separator,
{
    let mut at: usize = from;
    while at < to && bytes[at] != separator
        invariant
            from <= at <= to <= bytes.len(),
            forall|k: int| from <= k < at ==> bytes@[k] != separator,
        decreases to - at,
    {
        at = at + 1;
    }
    proof {
        let part = bytes@.subrange(from as int, to as int);
        assert forall|k: int| 0 <= k < at - from implies part[k] != separator by {
            assert(part[k] == bytes@[from + k]);
        }
        lemma_first_index_of(part, separator, at - from);
    }
    at
}

/// Reads the line that `listing` holds in its bytes `from..to`.
fn parse_line(listing: &str, from: usize, to: usize) -> (entry: Option<ImageEntry>)
    requires
        from <= to <= listing.spec_bytes().len(),
        is_char_boundary(listing.spec_bytes(), from as int),
        is_char_boundary(listing.spec_bytes(), to as int),
    ensures
        match entry {
            Some(image) => record_of(listing.spec_bytes().subrange(from as int, to as int))
                == Some(image@),
            None => record_of(listing.spec_bytes().subrange(from as int, to as int)) is None,
        },
{
    let bytes = listing.as_bytes();
    let ghost all = listing.spec_bytes();
    let ghost line = all.subrange(from as int, to as int);
    proof {
        encode_utf8_valid_utf8(listing@);
    }
    let first_tab: usize = find_byte(bytes, from, to, TAB);
    if first_tab == to {
        proof {
            assert(split(line, TAB) =~= seq![line]);
        }
        return None;
    }
    let ghost second_part = all.subrange(first_tab + 1, to as int);
    proof {
        assert(line.skip(first_tab - from + 1) =~= second_part);
        assert(line.take(first_tab - from) =~= all.subrange(from as int, first_tab as int));
        lemma_ascii_byte_is_a_character(all, first_tab as int);
    }
    let second_tab: usize = find_byte(bytes, first_tab + 1, to, TAB);
    if second_tab == to {
        proof {
            assert(split(second_part, TAB) =~= seq![second_part]);
            assert(split(line, TAB).len() == 2);
        }
        return None;
    }
    let ghost third_part = all.subrange(second_tab + 1, to as int);
    proof {
        assert(second_part.skip(second_tab - first_tab) =~= third_part);
        assert(second_part.take(second_tab - first_tab - 1) =~= all.subrange(
            first_tab + 1,
            second_tab as int,
        ));
        lemma_ascii_byte_is_a_character(all, second_tab as int);
    }
    let third_end: usize = find_byte(bytes, second_tab + 1, to, TAB);
    proof {
        if third_end < to {
            lemma_ascii_byte_is_a_character(all, third_end as int);
        } else {
            assert(third_part.take(third_part.len() as int) =~= third_part);
        }
        assert(third_part.take(third_end - second_tab - 1) =~= all.subrange(
            second_tab + 1,
            third_end as int,
        ));
        let third_fields = split(third_part, TAB);
        assert(third_fields[0] == all.subrange(second_tab + 1, third_end as int));
        let second_fields = split(second_part, TAB);
        assert(second_fields =~= seq![all.subrange(first_tab + 1, second_tab as int)]
            + third_fields);
        let fields = split(line, TAB);
        assert(fields =~= seq![all.subrange(from as int, first_tab as int)] + second_fields);
        assert(fields[1] == second_fields[0]);
        assert(fields[2] == second_fields[1]);
        assert(second_fields[1] == third_fields[0]);
    }
    let name = cut(listing, from, first_tab);
    let size_label = cut(listing, first_tab + 1, second_tab);
    let created_label = cut(listing, second_tab + 1, third_end);
    Some(ImageEntry { name, size_label, created_label })
}

/// What a sequence says, item by item, is what its first item says followed
/// by what the others say.
proof fn lemma_filter_map_prepend<A, B>(head: A, rest: Seq<A>, f: spec_fn(A) -> Option<B>)
    ensures
        (seq![head] + rest).filter_map(f) == (match f(head) {
            Some(value) => seq![value],
            None => Seq::empty(),
        }) + rest.filter_map(f),
    decreases rest.len(),
{
    let whole = seq![head] + rest;
    let first = match f(head) {
        Some(value) => seq![value],
        None => Seq::empty(),
    };
    if rest.len() == 0 {
        assert(whole =~= seq![head]);
        Seq::lemma_filter_map_singleton(head, f);
        assert(first + rest.filter_map(f) =~= first);
    } else {
        assert(whole.drop_last() =~= seq![head] + rest.drop_last());
        assert(whole.last() == rest.last());
        lemma_filter_map_prepend(head, rest.drop_last(), f);
        match f(rest.last()) {
            Some(value) => {
                assert(whole.filter_map(f) =~= first + (rest.drop_last().filter_map(f)
                    + seq![value]));
            },
            None => {},
        }
    }
}

/// Reads the listing of the container tool: the first
/// [`MAX_REPORTED_IMAGES`] images that it names, in its order. A line with
/// fewer than three tab-separated fields, an empty line among them, names
/// none.
pub fn parse_image_list(listing: &str) -> (images: Vec<ImageEntry>)
    ensures
        views_of(images@) == listed_images(listing.spec_bytes()),
        images.len() <= MAX_REPORTED_IMAGES,
{
    let bytes = listing.as_bytes();
    let ghost all = listing.spec_bytes();
    let ghost says = |line: Seq<u8>| record_of(line);
    let mut images: Vec<ImageEntry> = Vec::new();
    let mut start: usize = 0;
    proof {
        encode_utf8_valid_utf8(listing@);
        is_char_boundary_start_end_of_seq(all);
        assert(all.skip(0) =~= all);
        assert(views_of(images@) =~= Seq::<ImageView>::empty());
        assert(views_of(images@) + all_records(all) =~= all_records(all));
    }
    while start < bytes.len() && images.len() < MAX_REPORTED_IMAGES
        invariant
            bytes@ == all,
            all == listing.spec_bytes(),
            valid_utf8(all),
            start <= all.len(),
            is_char_boundary(all, start as int),
            images.len() <= MAX_REPORTED_IMAGES,
            says == (|line: Seq<u8>| record_of(line)),
            all_records(all) == views_of(images@) + all_records(all.skip(start as int)),
        decreases all.len() - start,
    {
        let ghost rest = all.skip(start as int);
        let ghost before = views_of(images@);
        let end: usize = find_byte(bytes, start, bytes.len(), LINE_FEED);
        let line_end: usize = if end < bytes.len() && end > start && bytes[end - 1]
            == CARRIAGE_RETURN {
            end - 1
        } else {
            end
        };
        let next: usize = if end < bytes.len() {
            end + 1
        } else {
            end
        };
        let ghost line = all.subrange(start as int, line_end as int);
        let ghost later = all.skip(next as int);
        proof {
            assert(rest =~= all.subrange(start as int, all.len() as int));
            assert(rest.take(end - start) =~= all.subrange(start as int, end as int));
            if end < bytes.len() {
                lemma_ascii_byte_is_a_character(all, end as int);
                assert(rest.skip(end - start + 1) =~= later);
                if end > start {
                    assert(rest.take(end - start).last() == all[end - 1]);
                    if all[end - 1] == CARRIAGE_RETURN {
                        lemma_ascii_byte_is_a_character(all, end - 1);
                        assert(rest.take(end - start).drop_last() =~= line);
                    }
                }
                assert(without_carriage_return(rest.take(end - start)) == line);
                assert(text_lines(rest) == seq![line] + text_lines(later));
            } else {
                is_char_boundary_start_end_of_seq(all);
                assert(line =~= rest);
                assert(later =~= Seq::<u8>::empty());
                assert(text_lines(later) =~= Seq::<Seq<u8>>::empty());
                assert(text_lines(rest) =~= seq![line] + text_lines(later));
            }
            lemma_filter_map_prepend(line, text_lines(later), says);
        }
        let entry = parse_line(listing, start, line_end);
        match entry {
            Some(image) => {
                proof {
                    assert(views_of(images@.push(image)) =~= before.push(image@));
                    assert(before + (seq![image@] + all_records(later)) =~= before.push(image@)
                        + all_records(later));
                }
                images.push(image);
            },
            None => {
                proof {
                    assert(Seq::<ImageView>::empty() + all_records(later) =~= all_records(
                        later,
                    ));
                }
            },
        }
        start = next;
    }
    proof {
        if start >= bytes.len() {
            assert(all.skip(start as int) =~= Seq::<u8>::empty());
            assert(all_records(all.skip(start as int)) =~= Seq::<ImageView>::empty());
            assert(all_records(all) =~= views_of(images@));
        } else {
            assert(all_records(all).take(MAX_REPORTED_IMAGES as int) =~= views_of(images@));
            if all_records(all).len() <= MAX_REPORTED_IMAGES {
                assert(all_records(all) =~= views_of(images@));
            }
        }
    }
    images
}

/// How a run of the container tool ended.
#[derive(Debug)]
pub enum ToolRun {
    /// The tool could not be started.
    Unavailable,
    /// The tool ran and reported failure.
    Failed,
    /// The tool ran and reported success, and wrote this to its output.
    Succeeded { stdout: Vec<u8> },
}

/// The text that `String::from_utf8_lossy` makes of `bytes`: the text that
/// the bytes encode, with a replacement character for each part that
/// encodes none.
pub uninterp spec fn lossy_text(bytes: Seq<u8>) -> Seq<char>;

/// Calls `String::from_utf8_lossy` of the standard library and takes the
/// text as an owned string. Believed, not proved: the text is a function of
/// the bytes alone, and bytes that are valid UTF-8 come back as the text
/// that they encode.
#[verifier::external_body]
fn decode_lossy(bytes: &[u8]) -> (text: String)
    ensures
        text@ == lossy_text(bytes@),
        valid_utf8(bytes@) ==> text@ == decode_utf8(bytes@),
{
    String::from_utf8_lossy(bytes).into_owned()
}

/// The images that are reported after a run of the container tool: those
/// that its output lists where it succeeded, none otherwise.
pub open spec fn images_of_run(run: ToolRun) -> Seq<ImageView> {
    match run {
        ToolRun::Succeeded { stdout } => listed_images(encode_utf8(lossy_text(stdout@))),
        _ => Seq::empty(),
    }
}

/// Reads what a run of the container tool has to say. A tool that is not
/// there, or that failed, lists no image; that is no error. The output of a
/// successful run is taken as text, lossily, and read as a listing; output
/// that is valid UTF-8 is read as it stands.
pub fn read_tool_run(run: ToolRun) -> (images: Vec<ImageEntry>)
    ensures
        views_of(images@) == images_of_run(run),
        images.len() <= MAX_REPORTED_IMAGES,
        run matches ToolRun::Succeeded { stdout } ==> (valid_utf8(stdout@) ==> views_of(images@)
            == listed_images(stdout@)),
{
    match run {
        ToolRun::Succeeded { stdout } => {
            let text = decode_lossy(stdout.as_slice());
            let images = parse_image_list(text.as_str());
            proof {
                if valid_utf8(stdout@) {
                    decode_utf8_encode_utf8(stdout@);
                }
            }
            images
        },
        _ => {
            let images: Vec<ImageEntry> = Vec::new();
            proof {
                assert(views_of(images@) =~= Seq::<ImageView>::empty());
            }
            images
        },
    }
}

/// A listing reports at most [`MAX_REPORTED_IMAGES`] images, and they are
/// the first that it names.
pub proof fn lemma_listed_images_are_capped(bytes: Seq<u8>)
    ensures
        listed_images(bytes).len() <= MAX_REPORTED_IMAGES,
        listed_images(bytes).len() <= all_records(bytes).len(),
        listed_images(bytes) == all_records(bytes).take(listed_images(bytes).len() as int),
{
    assert(all_records(bytes).take(all_records(bytes).len() as int) =~= all_records(bytes));
}

/// An empty listing names no image.
pub proof fn lemma_empty_listing_names_nothing()
    ensures
        listed_images(Seq::<u8>::empty()) == Seq::<ImageView>::empty(),
{
    assert(text_lines(Seq::<u8>::empty()) =~= Seq::<Seq<u8>>::empty());
    assert(all_records(Seq::<u8>::empty()) =~= Seq::<ImageView>::empty());
}

/// A line with fewer than two tabs, an empty line among them, names no
/// image.
pub proof fn lemma_short_line_names_nothing(line: Seq<u8>)
    requires
        forall|i: int, j: int| 0 <= i < j < line.len() ==> !(line[i] == TAB && line[j] == TAB),
    ensures
        record_of(line) is None,
{
    let at = first_index_of(line, TAB);
    lemma_first_index_bounds(line, TAB);
    if at < line.len() {
        let rest = line.skip(at + 1);
        assert forall|k: int| 0 <= k < rest.len() implies rest[k] != TAB by {
            assert(rest[k] == line[at + 1 + k]);
        }
        lemma_first_index_of(rest, TAB, rest.len() as int);
        assert(split(rest, TAB) =~= seq![rest]);
        assert(split(line, TAB).len() == 2);
    } else {
        assert(split(line, TAB) =~= seq![line]);
    }
}

/// The first separator is found inside the bytes or not at all, and no
/// separator stands before it.
pub proof fn lemma_first_index_bounds(bytes: Seq<u8>, separator: u8)
    ensures
        0 <= first_index_of(bytes, separator) <= bytes.len(),
        first_index_of(bytes, separator) < bytes.len() ==> bytes[first_index_of(
            bytes,
            separator,
        )] == separator,
        forall|k: int| 0 <= k < first_index_of(bytes, separator) ==> bytes[k] != separator,
    decreases bytes.len(),
{
    if bytes.len() != 0 && bytes[0] != separator {
        let rest = bytes.drop_first();
        lemma_first_index_bounds(rest, separator);
        assert forall|k: int| 0 <= k < first_index_of(bytes, separator) implies bytes[k]
            != separator by {
            if k > 0 {
                assert(bytes[k] == rest[k - 1]);
            }
        }
    }
}

/// A line of three fields, none of which holds a tab, names the image that
/// the fields describe; what follows a third tab is ignored.
pub proof fn lemma_full_line_names_its_fields(
    name: Seq<u8>,
    size_label: Seq<u8>,
    created_label: Seq<u8>,
    ignored: Seq<u8>,
)
    requires
        !name.contains(TAB),
        !size_label.contains(TAB),
        !created_label.contains(TAB),
    ensures
        record_of(name + seq![TAB] + size_label + seq![TAB] + created_label) == Some(
            ImageView {
                name: decode_utf8(name),
                size_label: decode_utf8(size_label),
                created_label: decode_utf8(created_label),
            },
        ),
        record_of(
            name + seq![TAB] + size_label + seq![TAB] + created_label + seq![TAB] + ignored,
        ) == record_of(name + seq![TAB] + size_label + seq![TAB] + created_label),
{
    let short = name + seq![TAB] + size_label + seq![TAB] + created_label;
    let long = short + seq![TAB] + ignored;
    lemma_three_fields(name, size_label, created_label, Seq::empty());
    assert(created_label + Seq::<u8>::empty() =~= created_label);
    assert(name + seq![TAB] + size_label + seq![TAB] + (created_label + Seq::<u8>::empty())
        =~= short);
    lemma_three_fields(name, size_label, created_label, seq![TAB] + ignored);
    assert(name + seq![TAB] + size_label + seq![TAB] + (created_label + (seq![TAB] + ignored))
        =~= long);
}

/// The first three fields of a line that starts with three fields free of
/// tabs, where `tail` is empty or starts with a tab.
proof fn lemma_three_fields(
    name: Seq<u8>,
    size_label: Seq<u8>,
    created_label: Seq<u8>,
    tail: Seq<u8>,
)
    requires
        !name.contains(TAB),
        !size_label.contains(TAB),
        !created_label.contains(TAB),
        tail.len() == 0 || tail[0] == TAB,
    ensures
        split(name + seq![TAB] + size_label + seq![TAB] + (created_label + tail), TAB).len()
            >= 3,
        split(name + seq![TAB] + size_label + seq![TAB] + (created_label + tail), TAB)[0]
            == name,
        split(name + seq![TAB] + size_label + seq![TAB] + (created_label + tail), TAB)[1]
            == size_label,
        split(name + seq![TAB] + size_label + seq![TAB] + (created_label + tail), TAB)[2]
            == created_label,
{
    let third = created_label + tail;
    let second = size_label + seq![TAB] + third;
    let line = name + seq![TAB] + size_label + seq![TAB] + third;
    assert(line =~= name + seq![TAB] + second);
    assert forall|k: int| 0 <= k < name.len() implies line[k] != TAB by {
        assert(line[k] == name[k]);
        assert(name.contains(name[k]));
    }
    lemma_first_index_of(line, TAB, name.len() as int);
    assert(line.take(name.len() as int) =~= name);
    assert(line.skip(name.len() as int + 1) =~= second);
    assert forall|k: int| 0 <= k < size_label.len() implies second[k] != TAB by {
        assert(second[k] == size_label[k]);
        assert(size_label.contains(size_label[k]));
    }
    lemma_first_index_of(second, TAB, size_label.len() as int);
    assert(second.take(size_label.len() as int) =~= size_label);
    assert(second.skip(size_label.len() as int + 1) =~= third);
    assert forall|k: int| 0 <= k < created_label.len() implies third[k] != TAB by {
        assert(third[k] == created_label[k]);
        assert(created_label.contains(created_label[k]));
    }
    if tail.len() > 0 {
        assert(third[created_label.len() as int] == tail[0]);
    }
    lemma_first_index_of(third, TAB, created_label.len() as int);
    assert(third.take(created_label.len() as int) =~= created_label);
    let third_fields = split(third, TAB);
    assert(third_fields[0] == created_label);
    let second_fields = split(second, TAB);
    assert(second_fields =~= seq![size_label] + third_fields);
    let fields = split(line, TAB);
    assert(fields =~= seq![name] + second_fields);
    assert(fields[1] == second_fields[0]);
    assert(fields[2] == second_fields[1]);
    assert(second_fields[1] == third_fields[0]);
}

/// `pieces` put together again, with `separator` between each two.
pub open spec fn join(pieces: Seq<Seq<u8>>, separator: u8) -> Seq<u8>
    decreases pieces.len(),
{
    if pieces.len() == 0 {
        Seq::empty()
    } else if pieces.len() == 1 {
        pieces[0]
    } else {
        pieces[0] + seq![separator] + join(pieces.drop_first(), separator)
    }
}

/// Splitting loses nothing and cuts at every separator: there is at least
/// one piece, no piece holds a separator, and the pieces joined by the
/// separator are the bytes that were split.
pub proof fn lemma_split_is_lossless(bytes: Seq<u8>, separator: u8)
    ensures
        split(bytes, separator).len() >= 1,
        forall|i: int|
            0 <= i < split(bytes, separator).len() ==> !(#[trigger] split(
                bytes,
                separator,
            )[i]).contains(separator),
        join(split(bytes, separator), separator) == bytes,
    decreases bytes.len(),
{
    let at = first_index_of(bytes, separator);
    let pieces = split(bytes, separator);
    lemma_first_index_bounds(bytes, separator);
    if at < bytes.len() {
        let head = bytes.take(at);
        let rest = bytes.skip(at + 1);
        let later = split(rest, separator);
        lemma_split_is_lossless(rest, separator);
        assert(pieces =~= seq![head] + later);
        assert(pieces.drop_first() =~= later);
        assert(join(pieces, separator) == head + seq![separator] + join(later, separator));
        assert(head + seq![separator] + rest =~= bytes);
        assert forall|i: int| 0 <= i < pieces.len() implies !(#[trigger] pieces[i]).contains(
            separator,
        ) by {
            if i == 0 {
                assert forall|k: int| 0 <= k < head.len() implies head[k] != separator by {
                    assert(head[k] == bytes[k]);
                }
            } else {
                assert(pieces[i] == later[i - 1]);
            }
        }
    } else {
        assert(pieces =~= seq![bytes]);
        assert(join(pieces, separator) == bytes);
    }
}

/// No line holds a line feed, and a listing holds no more lines than bytes.
pub proof fn lemma_lines_hold_no_line_feed(bytes: Seq<u8>)
    ensures
        text_lines(bytes).len() <= bytes.len(),
        forall|i: int|
            0 <= i < text_lines(bytes).len() ==> !(#[trigger] text_lines(bytes)[i]).contains(
                LINE_FEED,
            ),
    decreases bytes.len(),
{
    let at = first_index_of(bytes, LINE_FEED);
    let lines = text_lines(bytes);
    lemma_first_index_bounds(bytes, LINE_FEED);
    if bytes.len() != 0 {
        if at < bytes.len() {
            let head = bytes.take(at);
            let line = without_carriage_return(head);
            let later = text_lines(bytes.skip(at + 1));
            lemma_lines_hold_no_line_feed(bytes.skip(at + 1));
            assert(lines =~= seq![line] + later);
            assert forall|i: int| 0 <= i < lines.len() implies !(#[trigger] lines[i]).contains(
                LINE_FEED,
            ) by {
                if i == 0 {
                    assert forall|k: int| 0 <= k < line.len() implies line[k] != LINE_FEED by {
                        assert(line[k] == bytes[k]);
                    }
                } else {
                    assert(lines[i] == later[i - 1]);
                }
            }
        } else {
            assert(lines =~= seq![bytes]);
        }
    }
}

} // verus!
