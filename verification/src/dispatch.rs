//! Command classification for one inbound webhook payload.
//!
//! Each payload is classified independently: the chat identifier is
//! mandatory, a caption signals a captioned-media command, plain text
//! signals a text command, and anything unrecognized is a no-op. The
//! outcome is either a client rejection, a no-op, or one outbound message
//! bound for a named queue.

use vstd::prelude::*;

verus! {

use crate::json::JsonValue;
use crate::json::spec_field;
use crate::text::join_lines;
use crate::text::lemma_line_split_nl_free;
use crate::text::lemma_split_of_joined;
use crate::text::join_with_newlines;
use crate::text::line_split;
use crate::text::spec_starts_with;
use crate::text::read_text_lines;
use crate::text::str_eq;
use crate::text::strip_cr;
use crate::text::text_lines;
use crate::text::str_starts_with;
use crate::text::truncate_chars;
use crate::text::truncate_to_chars;

/// The named outbound destinations on the broker.
#[derive(Clone, Copy, Debug, PartialEq, Eq, Structural)]
pub enum Queue {
    ImageToText,
    Reply,
    Music,
}

impl Queue {
    /// The broker queue name of this destination.
    pub open spec fn spec_name(self) -> Seq<char> {
        match self {
            Queue::ImageToText => "ImageToText"@,
            Queue::Reply => "Reply"@,
            Queue::Music => "Music"@,
        }
    }

    /// The broker queue name of this destination.
    pub fn name(&self) -> (r: &'static str)
        ensures
            r@ == self.spec_name(),
    {
        match self {
            Queue::ImageToText => "ImageToText",
            Queue::Reply => "Reply",
            Queue::Music => "Music",
        }
    }
}

/// One outbound message: the chat it answers and its text body.
pub struct RabbitMessage {
    pub chat_id: i64,
    pub text: String,
}

/// The classification of one inbound payload.
pub enum Outcome {
    /// Client error: chat identifier missing, or `/readimage` with no
    /// resolvable image reference.
    Reject,
    /// Recognized-but-ignored shape: success with no side effect.
    NoOp,
    /// Publish `message` to `queue`.
    Publish { queue: Queue, message: RabbitMessage },
}

/// The mathematical value of an `Outcome`.
pub enum OutcomeView {
    Reject,
    NoOp,
    Publish { queue: Queue, chat_id: i64, text: Seq<char> },
}

impl View for Outcome {
    type V = OutcomeView;

    open spec fn view(&self) -> OutcomeView {
        match self {
            Outcome::Reject => OutcomeView::Reject,
            Outcome::NoOp => OutcomeView::NoOp,
            Outcome::Publish { queue, message } => OutcomeView::Publish {
                queue: *queue,
                chat_id: message.chat_id,
                text: message.text@,
            },
        }
    }
}

/// The mandatory chat identifier: `message.chat.id`, when it is an integer.
pub open spec fn spec_chat_id(p: JsonValue) -> Option<i64> {
    match spec_field(p, "message"@) {
        Some(m) => match spec_field(m, "chat"@) {
            Some(c) => match spec_field(c, "id"@) {
                Some(JsonValue::Int(i)) => Some(i),
                _ => None,
            },
            None => None,
        },
        None => None,
    }
}

/// The caption string of the message, if any.
pub open spec fn spec_caption(p: JsonValue) -> Option<Seq<char>> {
    match spec_field(p, "message"@) {
        Some(m) => match spec_field(m, "caption"@) {
            Some(JsonValue::Str(s)) => Some(s@),
            _ => None,
        },
        None => None,
    }
}

/// The free-text body of the message, if any.
pub open spec fn spec_text(p: JsonValue) -> Option<Seq<char>> {
    match spec_field(p, "message"@) {
        Some(m) => match spec_field(m, "text"@) {
            Some(JsonValue::Str(s)) => Some(s@),
            _ => None,
        },
        None => None,
    }
}

/// The width of one image variant; a missing or non-integer width counts
/// as zero.
pub open spec fn spec_width(p: JsonValue) -> i64 {
    match spec_field(p, "width"@) {
        Some(JsonValue::Int(w)) => w,
        _ => 0,
    }
}

/// The index, among the first `upto` photos, of the first photo of maximal
/// width.
pub open spec fn best_photo_index(photos: Seq<JsonValue>, upto: int) -> int
    decreases upto,
{
    if upto <= 1 {
        0
    } else {
        let b = best_photo_index(photos, upto - 1);
        if spec_width(photos[upto - 1]) > spec_width(photos[b]) {
            upto - 1
        } else {
            b
        }
    }
}

/// The array of image-size variants of the message, if any.
pub open spec fn spec_photos(p: JsonValue) -> Option<Seq<JsonValue>> {
    match spec_field(p, "message"@) {
        Some(m) => match spec_field(m, "photo"@) {
            Some(JsonValue::Arr(a)) => Some(a@),
            _ => None,
        },
        None => None,
    }
}

/// The file reference of the first widest photo, when the photo array is
/// non-empty and that photo carries a string `file_id`.
pub open spec fn spec_largest_file_id(p: JsonValue) -> Option<Seq<char>> {
    match spec_photos(p) {
        Some(photos) => if photos.len() == 0 {
            None
        } else {
            match spec_field(
                photos[best_photo_index(photos, photos.len() as int)],
                "file_id"@,
            ) {
                Some(JsonValue::Str(s)) => Some(s@),
                _ => None,
            }
        },
        None => None,
    }
}

/// The lines that follow the command line of a songlinks request.
pub open spec fn song_lines(t: Seq<char>) -> Seq<Seq<char>> {
    let all = text_lines(t);
    if all.len() == 0 {
        all
    } else {
        all.drop_first()
    }
}

/// The lines kept for a songlinks reply: at most the first ten lines after
/// the command line, each truncated to fifty characters, in original order.
pub open spec fn kept_song_lines(t: Seq<char>) -> Seq<Seq<char>> {
    let ls = song_lines(t);
    let kept = if ls.len() > 10 {
        ls.take(10)
    } else {
        ls
    };
    Seq::new(kept.len(), |j: int| truncate_chars(kept[j], 50))
}

/// The songlinks reply text: the kept lines joined with newlines.
pub open spec fn songlinks_text(t: Seq<char>) -> Seq<char> {
    join_lines(kept_song_lines(t))
}

/// The fixed help string.
pub open spec fn spec_help_text() -> Seq<char> {
    "Type /songlinks, followed by up to 10 lines of song titles to get download links.\n/readimage with an attached image, to get the text from the image.\n/donate to get a QR code."@
}

/// The classification of one payload: reject without a chat identifier;
/// with a caption, `/readimage` resolves the widest image or rejects, any
/// other caption is ignored; with plain text, `/help` and `/songlinks...`
/// build their replies and anything else is ignored; a message with
/// neither caption nor text is ignored.
pub open spec fn spec_receive(p: JsonValue) -> OutcomeView {
    match spec_chat_id(p) {
        None => OutcomeView::Reject,
        Some(chat_id) => match spec_caption(p) {
            Some(cap) => if cap == "/readimage"@ {
                match spec_largest_file_id(p) {
                    Some(fid) => OutcomeView::Publish {
                        queue: Queue::ImageToText,
                        chat_id,
                        text: fid,
                    },
                    None => OutcomeView::Reject,
                }
            } else {
                OutcomeView::NoOp
            },
            None => match spec_text(p) {
                Some(t) => if t == "/help"@ {
                    OutcomeView::Publish { queue: Queue::Reply, chat_id, text: spec_help_text() }
                } else if spec_starts_with(t, "/songlinks"@) {
                    OutcomeView::Publish { queue: Queue::Music, chat_id, text: songlinks_text(t) }
                } else {
                    OutcomeView::NoOp
                },
                None => OutcomeView::NoOp,
            },
        },
    }
}

/// Extracts the mandatory chat identifier from the payload.
pub fn extract_chat_id(payload: &JsonValue) -> (r: Option<i64>)
    ensures
        r == spec_chat_id(*payload),
{
    match payload.field("message") {
        Some(m) => match m.field("chat") {
            Some(c) => match c.field("id") {
                Some(v) => match v {
                    JsonValue::Int(i) => Some(*i),
                    _ => None,
                },
                None => None,
            },
            None => None,
        },
        None => None,
    }
}

/// Extracts the caption string, if the message carries one.
pub fn extract_caption<'a>(payload: &'a JsonValue) -> (r: Option<&'a str>)
    ensures
        match r {
            Some(s) => spec_caption(*payload) == Some(s@),
            None => spec_caption(*payload) is None,
        },
{
    match payload.field("message") {
        Some(m) => match m.field("caption") {
            Some(v) => match v {
                JsonValue::Str(s) => Some(s.as_str()),
                _ => None,
            },
            None => None,
        },
        None => None,
    }
}

/// Extracts the free-text body, if the message carries one.
pub fn extract_text<'a>(payload: &'a JsonValue) -> (r: Option<&'a str>)
    ensures
        match r {
            Some(s) => spec_text(*payload) == Some(s@),
            None => spec_text(*payload) is None,
        },
{
    match payload.field("message") {
        Some(m) => match m.field("text") {
            Some(v) => match v {
                JsonValue::Str(s) => Some(s.as_str()),
                _ => None,
            },
            None => None,
        },
        None => None,
    }
}

/// The width of one image variant, zero when missing or not an integer.
pub fn photo_width(p: &JsonValue) -> (r: i64)
    ensures
        r == spec_width(*p),
{
    match p.field("width") {
        Some(v) => match v {
            JsonValue::Int(w) => *w,
            _ => 0,
        },
        None => 0,
    }
}

/// Extracts the file reference of the widest attached image: maximal
/// width, first such element on a tie.
pub fn extract_largest_image_file_id<'a>(payload: &'a JsonValue) -> (r: Option<&'a str>)
    ensures
        match r {
            Some(s) => spec_largest_file_id(*payload) == Some(s@),
            None => spec_largest_file_id(*payload) is None,
        },
{
    let message = match payload.field("message") {
        Some(m) => m,
        None => {
            return None;
        },
    };
    let photos_field = match message.field("photo") {
        Some(v) => v,
        None => {
            return None;
        },
    };
    match photos_field {
        JsonValue::Arr(photos) => {
            if photos.len() == 0 {
                return None;
            }
            let mut best: usize = 0;
            let mut i: usize = 1;
            while i < photos.len()
                invariant
                    spec_photos(*payload) == Some(photos@),
                    1 <= i <= photos@.len(),
                    best < i,
                    best as int == best_photo_index(photos@, i as int),
                decreases photos@.len() - i,
            {
                let wi = photo_width(&photos[i]);
                let wb = photo_width(&photos[best]);
                if wi > wb {
                    best = i;
                }
                i += 1;
            }
            match (&photos[best]).field("file_id") {
                Some(v) => match v {
                    JsonValue::Str(s) => Some(s.as_str()),
                    _ => None,
                },
                None => None,
            }
        },
        _ => None,
    }
}

/// Builds the fixed help string.
pub fn help_message() -> (r: String)
    ensures
        r@ == spec_help_text(),
{
    ("Type /songlinks, followed by up to 10 lines of song titles to get download links.\n/readimage with an attached image, to get the text from the image.\n/donate to get a QR code.").to_owned()
}

/// Handles a `/readimage` caption: the reference of the widest attached
/// image goes to the image queue; with no usable image the request is
/// rejected.
pub fn handle_readimage(chat_id: i64, payload: &JsonValue) -> (r: Outcome)
    ensures
        r@ == match spec_largest_file_id(*payload) {
            Some(fid) => OutcomeView::Publish { queue: Queue::ImageToText, chat_id, text: fid },
            None => OutcomeView::Reject,
        },
{
    match extract_largest_image_file_id(payload) {
        Some(file_id) => Outcome::Publish {
            queue: Queue::ImageToText,
            message: RabbitMessage { chat_id, text: file_id.to_owned() },
        },
        None => Outcome::Reject,
    }
}

/// Handles `/help`: the fixed help string goes to the reply queue.
pub fn handle_help_command(chat_id: i64) -> (r: Outcome)
    ensures
        r@ == (OutcomeView::Publish { queue: Queue::Reply, chat_id, text: spec_help_text() }),
{
    Outcome::Publish { queue: Queue::Reply, message: RabbitMessage { chat_id, text: help_message() } }
}

/// Handles `/songlinks`: keeps at most the first ten lines after the
/// command line, truncates each to fifty characters, joins them with
/// newlines, and sends the result to the music queue.
pub fn handle_songlinks(chat_id: i64, text: &str) -> (r: Outcome)
    ensures
        r@ == (OutcomeView::Publish { queue: Queue::Music, chat_id, text: songlinks_text(text@) }),
{
    let lines = read_text_lines(text);
    let mut kept: Vec<String> = Vec::new();
    let mut i: usize = 1;
    while i < lines.len() && i < 11
        invariant
            lines.deep_view() == text_lines(text@),
            1 <= i,
            i <= 11,
            lines@.len() == 0 ==> i == 1,
            lines@.len() > 0 ==> i <= lines@.len(),
            kept.deep_view().len() == i - 1,
            forall|j: int|
                0 <= j < i - 1 ==> kept.deep_view()[j] == truncate_chars(song_lines(text@)[j], 50),
        decreases lines@.len() - i,
    {
        let ghost prev = kept.deep_view();
        let line: &String = &lines[i];
        let t = truncate_to_chars(line.as_str(), 50);
        kept.push(t.to_owned());
        proof {
            assert(song_lines(text@)[i - 1] == text_lines(text@)[i as int]);
            assert(kept.deep_view() =~= prev.push(truncate_chars(song_lines(text@)[i - 1], 50)));
        }
        i += 1;
    }
    proof {
        assert(kept.deep_view() =~= kept_song_lines(text@));
    }
    let joined = join_with_newlines(&kept);
    Outcome::Publish { queue: Queue::Music, message: RabbitMessage { chat_id, text: joined } }
}

/// Classifies one inbound payload: the single dispatch entry point.
pub fn receive_message(payload: &JsonValue) -> (r: Outcome)
    ensures
        r@ == spec_receive(*payload),
{
    let chat_id = match extract_chat_id(payload) {
        Some(c) => c,
        None => {
            return Outcome::Reject;
        },
    };
    match extract_caption(payload) {
        Some(command) => {
            if str_eq(command, "/readimage") {
                handle_readimage(chat_id, payload)
            } else {
                Outcome::NoOp
            }
        },
        None => match extract_text(payload) {
            Some(text) => {
                if str_eq(text, "/help") {
                    handle_help_command(chat_id)
                } else if str_starts_with(text, "/songlinks") {
                    handle_songlinks(chat_id, text)
                } else {
                    Outcome::NoOp
                }
            },
            None => Outcome::NoOp,
        },
    }
}

/// A payload without a chat identifier is rejected, and no message is
/// produced for any queue.
pub proof fn lemma_missing_chat_id_rejects(p: JsonValue)
    requires
        spec_chat_id(p) is None,
    ensures
        spec_receive(p) == OutcomeView::Reject,
{
}

/// A `/readimage` caption whose payload has an empty or absent photo array
/// is rejected.
pub proof fn lemma_readimage_no_photo_rejects(p: JsonValue)
    requires
        spec_chat_id(p) is Some,
        spec_caption(p) == Some("/readimage"@),
        spec_photos(p) is None || spec_photos(p) == Some(Seq::<JsonValue>::empty()),
    ensures
        spec_largest_file_id(p) is None,
        spec_receive(p) == OutcomeView::Reject,
{
}

/// Among a non-empty photo array, the chosen index carries a maximal
/// width, and no earlier index reaches that width: ties go to the first
/// maximal element.
pub proof fn lemma_best_photo_first_max(photos: Seq<JsonValue>)
    requires
        photos.len() > 0,
    ensures
        ({
            let b = best_photo_index(photos, photos.len() as int);
            &&& 0 <= b < photos.len()
            &&& forall|j: int|
                0 <= j < photos.len() ==> spec_width(photos[j]) <= spec_width(photos[b])
            &&& forall|j: int| 0 <= j < b ==> spec_width(photos[j]) < spec_width(photos[b])
        }),
{
    lemma_best_photo_prefix(photos, photos.len() as int);
}

proof fn lemma_best_photo_prefix(photos: Seq<JsonValue>, upto: int)
    requires
        1 <= upto <= photos.len(),
    ensures
        ({
            let b = best_photo_index(photos, upto);
            &&& 0 <= b < upto
            &&& forall|j: int| 0 <= j < upto ==> spec_width(photos[j]) <= spec_width(photos[b])
            &&& forall|j: int| 0 <= j < b ==> spec_width(photos[j]) < spec_width(photos[b])
        }),
    decreases upto,
{
    if upto > 1 {
        lemma_best_photo_prefix(photos, upto - 1);
    }
}

/// The songlinks reply is built of exactly `min(N, 10)` of the `N` lines
/// that follow the command line: the earliest ones, in original order,
/// each truncated to at most fifty characters, joined with newlines. With
/// no following lines the reply is empty.
pub proof fn lemma_songlinks_shape(t: Seq<char>)
    ensures
        ({
            let ls = song_lines(t);
            let kept = kept_song_lines(t);
            &&& kept.len() == if ls.len() > 10 {
                10int
            } else {
                ls.len() as int
            }
            &&& forall|j: int|
                0 <= j < kept.len() ==> kept[j] == truncate_chars(ls[j], 50) && kept[j].len() <= 50
            &&& songlinks_text(t) == join_lines(kept)
            &&& ls.len() == 0 ==> songlinks_text(t).len() == 0
        }),
{
}

/// The songlinks reply splits back into exactly the kept lines: when at
/// least one line follows the command line, the reply's newline-separated
/// lines are exactly the `min(N, 10)` earliest following lines, truncated,
/// in their original order.
pub proof fn lemma_songlinks_split_back(t: Seq<char>)
    requires
        text_lines(t).len() > 1,
    ensures
        line_split(songlinks_text(t)) == kept_song_lines(t),
{
    let segs = line_split(t);
    let all = text_lines(t);
    let ls = song_lines(t);
    let kept = kept_song_lines(t);
    lemma_line_split_nl_free(t);
    assert forall|k: int, j: int|
        0 <= k < kept.len() && 0 <= j < kept[k].len() implies #[trigger] kept[k][j] != '\n' by {
        assert(kept[k] == truncate_chars(ls[k], 50));
        assert(kept[k][j] == ls[k][j]);
        assert(ls[k] == all[k + 1]);
        if k + 1 < segs.len() - 1 || (segs.last().len() == 0 && k + 1 < segs.len()) {
            assert(all[k + 1] == strip_cr(segs[k + 1]));
            assert(strip_cr(segs[k + 1])[j] == segs[k + 1][j]);
            assert(segs[k + 1][j] != '\n');
        } else {
            assert(all[k + 1] == segs.last());
            assert(segs[segs.len() - 1][j] != '\n');
        }
    }
    lemma_split_of_joined(kept);
}

/// Exactly `/help` as plain text, with no caption, yields the fixed help
/// string bound for the reply queue, whatever the chat identifier is.
pub proof fn lemma_help_reply(p: JsonValue, chat_id: i64)
    requires
        spec_chat_id(p) == Some(chat_id),
        spec_caption(p) is None,
        spec_text(p) == Some("/help"@),
    ensures
        spec_receive(p) == (OutcomeView::Publish {
            queue: Queue::Reply,
            chat_id,
            text: spec_help_text(),
        }),
{
}

/// Plain text matching neither `/help` nor a `/songlinks` prefix, with no
/// caption, is ignored: success with no message for any queue.
pub proof fn lemma_unknown_text_no_publish(p: JsonValue, t: Seq<char>)
    requires
        spec_chat_id(p) is Some,
        spec_caption(p) is None,
        spec_text(p) == Some(t),
        t != "/help"@,
        !spec_starts_with(t, "/songlinks"@),
    ensures
        spec_receive(p) == OutcomeView::NoOp,
{
}

/// A caption other than `/readimage` is ignored: success with no message
/// for any queue.
pub proof fn lemma_unknown_caption_no_publish(p: JsonValue, c: Seq<char>)
    requires
        spec_chat_id(p) is Some,
        spec_caption(p) == Some(c),
        c != "/readimage"@,
    ensures
        spec_receive(p) == OutcomeView::NoOp,
{
}

} // verus!
