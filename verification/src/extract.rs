//! Reading the follower count out of a profile page: the anchor that links to
//! the followers list is looked up, and the first piece of its text that
//! starts with a digit is read as a number with thousands separators.

use vstd::prelude::*;

verus! {

/// The selector of the anchor that carries the follower count.
pub const FOLLOWERS_SELECTOR: &'static str = "a[href=\"/chrisbiscardi/followers\"]";

/// Why no follower count could be read.
#[derive(Clone, Copy, Debug, PartialEq, Eq, Structural)]
pub enum ExtractError {
    /// The page could not be fetched, or the server answered outside 200..=299.
    TransportError,
    /// The page holds no anchor that links to the followers list.
    ElementNotFound,
    /// No piece of the anchor's text starts with a digit.
    NumberNotFound,
    /// The piece that starts with a digit is not a number of 64 bits.
    NumberNotParseable,
}

/// What came back from fetching the page.
#[derive(Debug, PartialEq, Eq)]
pub enum Fetched {
    /// No answer: the request failed or timed out.
    Failed,
    /// An answer with its status code and body.
    Response { status: u16, body: String },
}

/// `c` is one of `0` to `9`.
pub open spec fn is_digit(c: char) -> bool {
    '0' <= c && c <= '9'
}

/// The piece is not empty and starts with a digit.
pub open spec fn leads_with_digit(piece: Seq<char>) -> bool {
    piece.len() > 0 && is_digit(piece[0])
}

/// The first piece that starts with a digit.
pub open spec fn numeric_piece(pieces: Seq<Seq<char>>) -> Option<Seq<char>>
    decreases pieces.len(),
{
    if pieces.len() == 0 {
        None
    } else if leads_with_digit(pieces.first()) {
        Some(pieces.first())
    } else {
        numeric_piece(pieces.drop_first())
    }
}

/// `s` with every comma taken out.
pub open spec fn without_commas(s: Seq<char>) -> Seq<char>
    decreases s.len(),
{
    if s.len() == 0 {
        s
    } else if s.last() == ',' {
        without_commas(s.drop_last())
    } else {
        without_commas(s.drop_last()).push(s.last())
    }
}

/// Every character of `s` is a digit.
pub open spec fn all_digits(s: Seq<char>) -> bool {
    forall|i: int| 0 <= i < s.len() ==> is_digit(#[trigger] s[i])
}

/// The number that the digits of `s` denote in base ten.
pub open spec fn decimal_value(s: Seq<char>) -> nat
    decreases s.len(),
{
    if s.len() == 0 {
        0
    } else {
        (decimal_value(s.drop_last()) * 10 + (s.last() as int - 48)) as nat
    }
}

/// `s` read as an unsigned number of 64 bits: one or more digits whose value fits.
pub open spec fn parse_u64(s: Seq<char>) -> Option<u64> {
    if s.len() > 0 && all_digits(s) && decimal_value(s) <= u64::MAX {
        Some(decimal_value(s) as u64)
    } else {
        None
    }
}

/// The count that the text pieces of the anchor give.
pub open spec fn metric_of(pieces: Seq<Seq<char>>) -> Result<u64, ExtractError> {
    match numeric_piece(pieces) {
        None => Err(ExtractError::NumberNotFound),
        Some(piece) => match parse_u64(without_commas(piece)) {
            Some(v) => Ok(v),
            None => Err(ExtractError::NumberNotParseable),
        },
    }
}

/// The count that a selection gives: the selection is `None` where the
/// selector was refused, `Some(None)` where nothing matched, and else the text
/// pieces of the first match.
pub open spec fn selection_outcome(sel: Option<Option<Seq<Seq<char>>>>) -> Result<
    u64,
    ExtractError,
> {
    match sel {
        Some(Some(pieces)) => metric_of(pieces),
        _ => Err(ExtractError::ElementNotFound),
    }
}

/// The status code is one of 200..=299.
pub open spec fn is_success(status: u16) -> bool {
    200 <= status && status < 300
}

/// The views of the pieces.
pub open spec fn texts(pieces: Seq<Vec<char>>) -> Seq<Seq<char>> {
    Seq::new(pieces.len(), |i: int| pieces[i]@)
}

/// The view of a selection.
pub open spec fn selection_view(sel: Option<Option<Vec<Vec<char>>>>) -> Option<
    Option<Seq<Seq<char>>>,
> {
    match sel {
        None => None,
        Some(None) => Some(None),
        Some(Some(pieces)) => Some(Some(texts(pieces@))),
    }
}

/// What selecting with `selector` in the document parsed from `html` gives:
/// `None` where the selector is refused, `Some(None)` where no element
/// matches, else the text nodes below the first match, in document order.
pub uninterp spec fn selected_text(html: Seq<char>, selector: Seq<char>) -> Option<
    Option<Seq<Seq<char>>>,
>;

/// `scraper::Selector::parse`, `scraper::Html::parse_document`,
/// `Html::select` and `ElementRef::text`: the text nodes of the first element
/// that matches, each as its characters. The result is a function of the two
/// texts alone; nothing more is claimed of it.
#[verifier::external_body]
fn select_first_text(html: &str, selector: &str) -> (r: Option<Option<Vec<Vec<char>>>>)
    ensures
        selection_view(r) == selected_text(html@, selector@),
{
    let parsed = match scraper::Selector::parse(selector) {
        Ok(p) => p,
        Err(_) => return None,
    };
    let document = scraper::Html::parse_document(html);
    let first = document.select(&parsed).next();
    Some(first.map(|e| e.text().map(|t| t.chars().collect()).collect()))
}

/// A prefix of a digit string denotes no more than the whole.
pub proof fn lemma_prefix_value(s: Seq<char>, n: int)
    requires
        0 <= n <= s.len(),
        all_digits(s),
    ensures
        decimal_value(s.take(n)) <= decimal_value(s),
    decreases s.len(),
{
    if n == s.len() {
        assert(s.take(n) =~= s);
    } else {
        let p = s.drop_last();
        assert(is_digit(s.last()));
        assert forall|i: int| 0 <= i < p.len() implies is_digit(#[trigger] p[i]) by {
            assert(p[i] == s[i]);
        }
        lemma_prefix_value(p, n);
        assert(p.take(n) =~= s.take(n));
    }
}

/// `s` holds digits and commas only.
pub open spec fn digits_and_commas(s: Seq<char>) -> bool {
    forall|i: int| 0 <= i < s.len() ==> is_digit(#[trigger] s[i]) || s[i] == ','
}

/// Without its commas, a text of digits and commas is a text of digits, and
/// one that starts with a digit stays non-empty.
pub proof fn lemma_without_commas_digits(s: Seq<char>)
    requires
        digits_and_commas(s),
    ensures
        all_digits(without_commas(s)),
        leads_with_digit(s) ==> without_commas(s).len() > 0,
    decreases s.len(),
{
    if s.len() > 0 {
        let p = s.drop_last();
        assert forall|i: int| 0 <= i < p.len() implies is_digit(#[trigger] p[i]) || p[i] == ',' by {
            assert(p[i] == s[i]);
        }
        lemma_without_commas_digits(p);
        assert(is_digit(s.last()) || s.last() == ',');
        if s.len() == 1 {
            assert(s.last() == s[0]);
        } else {
            assert(p[0] == s[0]);
        }
    }
}

/// Where the first piece that starts with a digit holds digits and commas
/// only, and its digits denote a number of 64 bits, that number is the count.
pub proof fn law_grouped_number(pieces: Seq<Seq<char>>, piece: Seq<char>)
    requires
        numeric_piece(pieces) == Some(piece),
        digits_and_commas(piece),
        decimal_value(without_commas(piece)) <= u64::MAX,
    ensures
        metric_of(pieces) == Ok::<u64, ExtractError>(decimal_value(without_commas(piece)) as u64),
{
    lemma_numeric_piece(pieces);
    lemma_without_commas_digits(piece);
}

/// The first piece that starts with a digit is one of the pieces and starts
/// with a digit; there is none exactly where no piece starts with a digit.
pub proof fn lemma_numeric_piece(pieces: Seq<Seq<char>>)
    ensures
        match numeric_piece(pieces) {
            Some(piece) => leads_with_digit(piece) && pieces.contains(piece),
            None => forall|i: int| 0 <= i < pieces.len() ==> !leads_with_digit(#[trigger] pieces[i]),
        },
    decreases pieces.len(),
{
    if pieces.len() > 0 {
        if leads_with_digit(pieces.first()) {
            assert(pieces[0] == pieces.first());
        } else {
            let rest = pieces.drop_first();
            lemma_numeric_piece(rest);
            match numeric_piece(rest) {
                Some(piece) => {
                    let i = choose|i: int| 0 <= i < rest.len() && rest[i] == piece;
                    assert(pieces[i + 1] == piece);
                },
                None => {
                    assert forall|i: int| 0 <= i < pieces.len() implies !leads_with_digit(
                        #[trigger] pieces[i],
                    ) by {
                        if i > 0 {
                            assert(rest[i - 1] == pieces[i]);
                        }
                    }
                },
            }
        }
    }
}

/// Where no piece of the anchor's text holds a digit, no number is found.
pub proof fn law_no_digit_no_number(pieces: Seq<Seq<char>>)
    requires
        forall|i: int, j: int|
            0 <= i < pieces.len() && 0 <= j < pieces[i].len() ==> !is_digit(#[trigger] pieces[i][j]),
    ensures
        metric_of(pieces) == Err::<u64, ExtractError>(ExtractError::NumberNotFound),
{
    lemma_numeric_piece(pieces);
    match numeric_piece(pieces) {
        Some(piece) => {
            let i = choose|i: int| 0 <= i < pieces.len() && pieces[i] == piece;
            assert(!is_digit(pieces[i][0]));
        },
        None => {},
    }
}

/// Takes the commas out of a piece of text.
pub fn strip_commas(piece: &Vec<char>) -> (out: Vec<char>)
    ensures
        out@ == without_commas(piece@),
{
    let mut out: Vec<char> = Vec::new();
    let mut i: usize = 0;
    while i < piece.len()
        invariant
            i <= piece.len(),
            out@ == without_commas(piece@.take(i as int)),
        decreases piece.len() - i,
    {
        let c = piece[i];
        assert(piece@.take(i + 1).drop_last() =~= piece@.take(i as int));
        if c != ',' {
            out.push(c);
        }
        i += 1;
    }
    assert(piece@.take(i as int) =~= piece@);
    out
}

/// Reads a string of digits as an unsigned number of 64 bits.
pub fn parse_decimal(text: &Vec<char>) -> (r: Option<u64>)
    ensures
        r == parse_u64(text@),
{
    if text.len() == 0 {
        return None;
    }
    let mut acc: u64 = 0;
    let mut i: usize = 0;
    while i < text.len()
        invariant
            i <= text.len(),
            all_digits(text@.take(i as int)),
            acc == decimal_value(text@.take(i as int)),
        decreases text.len() - i,
    {
        let c = text[i];
        if !(c >= '0' && c <= '9') {
            return None;
        }
        let d: u64 = (c as u32 - 48) as u64;
        assert(text@.take(i + 1).drop_last() =~= text@.take(i as int));
        assert(all_digits(text@.take(i + 1))) by {
            assert forall|j: int| 0 <= j < i + 1 implies is_digit(#[trigger] text@.take(i + 1)[j]) by {
                if j < i {
                    assert(text@.take(i as int)[j] == text@[j]);
                }
            }
        }
        if acc > (u64::MAX - d) / 10 {
            proof {
                if all_digits(text@) {
                    lemma_prefix_value(text@, i + 1);
                }
            }
            return None;
        }
        acc = acc * 10 + d;
        i += 1;
    }
    assert(text@.take(i as int) =~= text@);
    Some(acc)
}

/// Whether a piece of text starts with a digit.
pub fn starts_with_digit(piece: &Vec<char>) -> (r: bool)
    ensures
        r == leads_with_digit(piece@),
{
    piece.len() > 0 && piece[0] >= '0' && piece[0] <= '9'
}

/// Reads the count from the text pieces of the anchor: the first piece that
/// starts with a digit, commas taken out, as a number.
pub fn metric_from_pieces(pieces: &Vec<Vec<char>>) -> (r: Result<u64, ExtractError>)
    ensures
        r == metric_of(texts(pieces@)),
{
    let ghost all = texts(pieces@);
    let mut i: usize = 0;
    assert(all.skip(0) =~= all);
    while i < pieces.len()
        invariant
            i <= pieces.len(),
            all == texts(pieces@),
            numeric_piece(all) == numeric_piece(all.skip(i as int)),
        decreases pieces.len() - i,
    {
        assert(all.skip(i as int).first() == pieces@[i as int]@);
        assert(all.skip(i as int).drop_first() =~= all.skip(i + 1));
        if starts_with_digit(&pieces[i]) {
            let cleaned = strip_commas(&pieces[i]);
            return match parse_decimal(&cleaned) {
                Some(v) => Ok(v),
                None => Err(ExtractError::NumberNotParseable),
            };
        }
        i += 1;
    }
    Err(ExtractError::NumberNotFound)
}

/// Reads the count from what a selection gave.
pub fn metric_from_selection(sel: &Option<Option<Vec<Vec<char>>>>) -> (r: Result<
    u64,
    ExtractError,
>)
    ensures
        r == selection_outcome(selection_view(*sel)),
{
    match sel {
        Some(Some(pieces)) => metric_from_pieces(pieces),
        _ => Err(ExtractError::ElementNotFound),
    }
}

/// Reads the count from a page: selects the first element that matches
/// `selector` and reads its text.
pub fn extract(html: &str, selector: &str) -> (r: Result<u64, ExtractError>)
    ensures
        r == selection_outcome(selected_text(html@, selector@)),
        selected_text(html@, selector@) == Some(None::<Seq<Seq<char>>>) ==> r == Err::<
            u64,
            ExtractError,
        >(ExtractError::ElementNotFound),
{
    let sel = select_first_text(html, selector);
    metric_from_selection(&sel)
}

/// The count that a fetch of the profile page gives.
pub open spec fn twitter_outcome(fetched: Fetched) -> Result<u64, ExtractError> {
    match fetched {
        Fetched::Response { status, body } if is_success(status) => selection_outcome(
            selected_text(body@, FOLLOWERS_SELECTOR@),
        ),
        _ => Err(ExtractError::TransportError),
    }
}

/// Reads the follower count from what fetching the profile page gave.
pub fn twitter(fetched: &Fetched) -> (r: Result<u64, ExtractError>)
    ensures
        r == twitter_outcome(*fetched),
{
    match fetched {
        Fetched::Response { status, body } => {
            if 200 <= *status && *status < 300 {
                extract(body.as_str(), FOLLOWERS_SELECTOR)
            } else {
                Err(ExtractError::TransportError)
            }
        },
        Fetched::Failed => Err(ExtractError::TransportError),
    }
}

} // verus!
