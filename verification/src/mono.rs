//! Generating on one device: from a prompt on, one token after the other.
use crate::exec::OutputHead;
use crate::group::Op;
use crate::kv_cache;
use crate::tensor;
use crate::tensor::Tensor;
use crate::text;
use crate::text::div_ceil;
use tokeneer::{utok, Bpe, Tokeneer};
use vstd::prelude::*;
use vstd::string::StringExecFns;

verus! {

/// A byte pair encoding.
#[verifier::external_type_specification]
#[verifier::external_body]
pub struct ExBpe(Bpe);

/// A tokenizer: what turns text into tokens and tokens into text.
#[verifier::external_type_specification]
#[verifier::external_body]
#[verifier::reject_recursive_types(M)]
pub struct ExTokeneer<M>(Tokeneer<M>);

/// The tokens that a tokenizer has for texts.
pub uninterp spec fn encodings(tokeneer: &Tokeneer<Bpe>) -> Map<Seq<char>, Seq<utok>>;

/// The token that a tokenizer has for what it does not know.
pub uninterp spec fn unknown_token(tokeneer: &Tokeneer<Bpe>) -> utok;

/// The bytes that the tokens of a tokenizer stand for.
pub uninterp spec fn pieces(tokeneer: &Tokeneer<Bpe>) -> Map<utok, Seq<u8>>;

/// A tokenizer knows a character: none of the tokens that it has for it alone is the one for
/// what it does not know.
pub open spec fn knows(tokeneer: &Tokeneer<Bpe>, c: char) -> bool {
    !encodings(tokeneer)[seq![c]].contains(unknown_token(tokeneer))
}

/// A token stands for a text, and not only for a part of a character.
pub open spec fn is_text(tokeneer: &Tokeneer<Bpe>, token: utok) -> bool {
    pieces(tokeneer).contains_key(token) && vstd::utf8::valid_utf8(pieces(tokeneer)[token])
}

/// The text that a token stands for.
pub open spec fn text_of(tokeneer: &Tokeneer<Bpe>, token: utok) -> Seq<char> {
    vstd::utf8::decode_utf8(pieces(tokeneer)[token])
}

/// A text is what a token stands for, other than the token for what is unknown.
pub open spec fn is_piece(tokeneer: &Tokeneer<Bpe>, text: Seq<char>) -> bool {
    exists|token: utok| #[trigger]
        is_text(tokeneer, token) && token != unknown_token(tokeneer) && text_of(tokeneer, token)
            == text
}

/// A text that a piece may be put together of: a character, or a piece.
pub open spec fn is_part(tokeneer: &Tokeneer<Bpe>, text: Seq<char>) -> bool {
    text.len() == 1 || is_piece(tokeneer, text)
}

/// A piece that is put together of two parts.
pub open spec fn is_joined(tokeneer: &Tokeneer<Bpe>, text: Seq<char>) -> bool {
    &&& text.len() >= 2
    &&& is_piece(tokeneer, text)
    &&& exists|k: int|
        0 < k < text.len() && is_part(tokeneer, #[trigger] text.take(k)) && is_part(
            tokeneer,
            text.skip(k),
        )
}

/// The token for what is unknown stands for a single byte.
pub open spec fn is_narrow(tokeneer: &Tokeneer<Bpe>) -> bool {
    let unknown = unknown_token(tokeneer);
    pieces(tokeneer).contains_key(unknown) && pieces(tokeneer)[unknown].len() == 1
}

/// The characters from `i` to before `j` hold an unknown one, or stand right before one whose
/// token is longer than a byte.
pub open spec fn meets_unknown(
    tokeneer: &Tokeneer<Bpe>,
    text: Seq<char>,
    i: int,
    j: int,
) -> bool {
    ||| exists|k: int| i <= k < j && !knows(tokeneer, #[trigger] text[k])
    ||| j < text.len() && !knows(tokeneer, text[j]) && !is_narrow(tokeneer)
}

/// A text can be turned into tokens: no piece in it that is put together of two parts meets
/// an unknown character.
pub open spec fn encodable(tokeneer: &Tokeneer<Bpe>, text: Seq<char>) -> bool {
    forall|i: int, j: int|
        0 <= i < j <= text.len() && #[trigger] is_joined(tokeneer, text.subrange(i, j))
            ==> !meets_unknown(tokeneer, text, i, j)
}

/// `tokeneer::Tokeneer::encode` turns a text into tokens: always the same ones for one
/// tokenizer and one text. Which ones they are is for the tokenizer to say.
///
/// It cuts the text at its special patterns and merges pieces in what lies between. After each
/// merge it takes the next token to be as long as what that stands for. The token for what is
/// unknown stands for something else than the text there, so the merging may reach beyond the
/// end, or take a character twice. Texts in which a merge can come to an unknown character are
/// left out, also those that would be turned into tokens because enough text lies between that
/// character and the next special pattern: the patterns are private to the tokenizer.
#[verifier::external_body]
fn encode(tokeneer: &Tokeneer<Bpe>, text: &str) -> (tokens: Vec<utok>)
    requires
        encodable(tokeneer, text@),
    ensures
        tokens@ == encodings(tokeneer)[text@],
{
    tokeneer.encode(text)
}

/// `tokeneer::Method::unk_token` of the encoding of a tokenizer is the token for what it does
/// not know.
#[verifier::external_body]
fn unk_token(tokeneer: &Tokeneer<Bpe>) -> (token: utok)
    ensures
        token == unknown_token(tokeneer),
{
    tokeneer::Method::unk_token(tokeneer.internal())
}

/// `tokeneer::Method::vocab_size` of the encoding of a tokenizer is how many tokens there
/// are: those below that number, and no others, stand for bytes.
#[verifier::external_body]
fn vocab_size(tokeneer: &Tokeneer<Bpe>) -> (n: usize)
    ensures
        forall|token: utok| #[trigger] pieces(tokeneer).contains_key(token) <==> token < n,
{
    tokeneer::Method::vocab_size(tokeneer.internal())
}

/// `tokeneer::Method::decode` of the encoding of a tokenizer hands out the bytes that a token
/// stands for.
#[verifier::external_body]
fn piece(tokeneer: &Tokeneer<Bpe>, token: utok) -> (bytes: Vec<u8>)
    requires
        pieces(tokeneer).contains_key(token),
    ensures
        bytes@ == pieces(tokeneer)[token],
{
    tokeneer::Method::decode(tokeneer.internal(), token).to_vec()
}

/// `tokeneer::Tokeneer::decode` of one token is the text whose bytes in UTF-8 the token stands
/// for. Tokens that do not stand for a text are left out.
#[verifier::external_body]
fn decode(tokeneer: &Tokeneer<Bpe>, token: utok) -> (text: String)
    requires
        is_text(tokeneer, token),
    ensures
        text@ == text_of(tokeneer, token),
{
    tokeneer.decode(&[token])
}

/// `std::str::from_utf8` accepts exactly the bytes that are UTF-8.
#[verifier::external_body]
fn is_utf8(bytes: &[u8]) -> (valid: bool)
    ensures
        valid == vstd::utf8::valid_utf8(bytes@),
{
    std::str::from_utf8(bytes).is_ok()
}

/// Whether a tokenizer knows a character.
fn check_char(tokeneer: &Tokeneer<Bpe>, c: char) -> (known: bool)
    ensures
        known == knows(tokeneer, c),
{
    let mut text = String::new();
    text.push(c);
    assert(text@ =~= seq![c]);
    let tokens = encode(tokeneer, text.as_str());
    let unknown: utok = unk_token(tokeneer);
    let mut i: usize = 0;
    while i < tokens.len()
        invariant
            i <= tokens.len(),
            unknown == unknown_token(tokeneer),
            tokens@ == encodings(tokeneer)[seq![c]],
            forall|j: int| 0 <= j < i ==> tokens@[j] != unknown,
        decreases tokens.len() - i,
    {
        if tokens[i] == unknown {
            assert(tokens@.contains(unknown));
            return false;
        }
        i = i + 1;
    }
    true
}

/// The characters of a text.
fn characters(text: &str) -> (chars: Vec<char>)
    ensures
        chars@ == text@,
{
    let ghost all = text@;
    let mut chars: Vec<char> = Vec::new();
    for c in it: text.chars()
        invariant
            it.seq() == all,
            chars@ == all.take(it.index() as int),
    {
        chars.push(c);
        assert(all.take(it.index() as int + 1) =~= all.take(it.index() as int).push(c));
    }
    assert(all.take(all.len() as int) =~= all);
    chars
}

/// A text is one of some texts.
pub open spec fn is_among(texts: Seq<Vec<char>>, text: Seq<char>) -> bool {
    exists|k: int| 0 <= k < texts.len() && (#[trigger] texts[k])@ == text
}

/// A text is what one of the first `n` tokens stands for, other than the token for what is
/// unknown.
spec fn is_piece_below(tokeneer: &Tokeneer<Bpe>, text: Seq<char>, n: int) -> bool {
    exists|token: utok| #[trigger]
        is_text(tokeneer, token) && token < n && token != unknown_token(tokeneer) && text_of(
            tokeneer,
            token,
        ) == text
}

/// The pieces of a tokenizer.
fn all_pieces(tokeneer: &Tokeneer<Bpe>) -> (all: Vec<Vec<char>>)
    ensures
        forall|text: Seq<char>| #[trigger] is_among(all@, text) <==> is_piece(tokeneer, text),
{
    let n: usize = vocab_size(tokeneer);
    let unknown: utok = unk_token(tokeneer);
    let mut all: Vec<Vec<char>> = Vec::new();
    let mut i: usize = 0;
    while i < n && i <= utok::MAX as usize
        invariant
            i <= n,
            i <= utok::MAX + 1,
            unknown == unknown_token(tokeneer),
            forall|text: Seq<char>| #[trigger]
                is_among(all@, text) <==> is_piece_below(tokeneer, text, i as int),
        decreases n - i,
    {
        let token: utok = i as utok;
        let ghost before = all@;
        if token != unknown && check_token(tokeneer, token) {
            let text = decode(tokeneer, token);
            let chars = characters(text.as_str());
            all.push(chars);
            assert(all@[before.len() as int]@ == text_of(tokeneer, token));
        }
        proof {
            assert forall|text: Seq<char>| #[trigger]
                is_among(all@, text) <==> is_piece_below(tokeneer, text, i as int + 1) by {
                assert(is_among(before, text) <==> is_piece_below(tokeneer, text, i as int));
                if is_among(before, text) {
                    let k = choose|k: int| 0 <= k < before.len() && (#[trigger] before[k])@ == text;
                    assert(all@[k]@ == text);
                }
                if is_among(all@, text) {
                    let k = choose|k: int| 0 <= k < all@.len() && (#[trigger] all@[k])@ == text;
                    if k < before.len() {
                        assert(before[k]@ == text);
                    } else {
                        assert(is_text(tokeneer, token));
                    }
                }
            }
        }
        i = i + 1;
    }
    proof {
        assert forall|text: Seq<char>| #[trigger] is_among(all@, text) <==> is_piece(
            tokeneer,
            text,
        ) by {
            assert(is_among(all@, text) <==> is_piece_below(tokeneer, text, i as int));
            if is_piece(tokeneer, text) {
                let token = choose|token: utok| #[trigger]
                    is_text(tokeneer, token) && token != unknown_token(tokeneer) && text_of(
                        tokeneer,
                        token,
                    ) == text;
                assert(pieces(tokeneer).contains_key(token));
                assert(is_text(tokeneer, token) && token < i);
            }
        }
    }
    all
}

/// Whether `piece` stands in a text from `from` on.
fn stands_at(text: &Vec<char>, from: usize, piece: &Vec<char>) -> (stands: bool)
    requires
        from <= text.len(),
    ensures
        stands == (from + piece.len() <= text.len() && text@.subrange(
            from as int,
            from + piece.len(),
        ) == piece@),
{
    if piece.len() > text.len() - from {
        return false;
    }
    let mut k: usize = 0;
    while k < piece.len()
        invariant
            k <= piece.len(),
            from + piece.len() <= text.len(),
            forall|l: int| 0 <= l < k ==> text@[from + l] == #[trigger] piece@[l],
        decreases piece.len() - k,
    {
        if text[from + k] != piece[k] {
            assert(text@.subrange(from as int, from + piece.len())[k as int] != piece@[k as int]);
            return false;
        }
        k = k + 1;
    }
    assert(text@.subrange(from as int, from + piece.len()) =~= piece@);
    true
}

/// Whether the characters from `from` to before `to` are one of some texts.
fn check_among(texts: &Vec<Vec<char>>, text: &Vec<char>, from: usize, to: usize) -> (among: bool)
    requires
        from <= to <= text.len(),
    ensures
        among == is_among(texts@, text@.subrange(from as int, to as int)),
{
    let ghost wanted = text@.subrange(from as int, to as int);
    let mut k: usize = 0;
    while k < texts.len()
        invariant
            k <= texts.len(),
            from <= to <= text.len(),
            wanted == text@.subrange(from as int, to as int),
            forall|l: int| 0 <= l < k ==> (#[trigger] texts@[l])@ != wanted,
        decreases texts.len() - k,
    {
        if texts[k].len() == to - from && stands_at(text, from, &texts[k]) {
            assert(texts@[k as int]@ == wanted);
            return true;
        }
        assert(texts@[k as int]@ != wanted) by {
            if texts@[k as int]@ == wanted {
                assert(texts@[k as int].len() == to - from);
            }
        }
        k = k + 1;
    }
    false
}

/// Whether a piece is put together of two parts.
fn check_joined(tokeneer: &Tokeneer<Bpe>, all: &Vec<Vec<char>>, piece: &Vec<char>) -> (joined: bool)
    requires
        forall|text: Seq<char>| #[trigger] is_among(all@, text) <==> is_piece(tokeneer, text),
        is_piece(tokeneer, piece@),
    ensures
        joined == is_joined(tokeneer, piece@),
{
    let n: usize = piece.len();
    let mut k: usize = 1;
    while k < n
        invariant
            1 <= k,
            n == piece.len(),
            n >= 1 ==> k <= n,
            forall|text: Seq<char>| #[trigger]
                is_among(all@, text) <==> is_piece(tokeneer, text),
            is_piece(tokeneer, piece@),
            forall|l: int|
                0 < l < k ==> !(is_part(tokeneer, #[trigger] piece@.take(l)) && is_part(
                    tokeneer,
                    piece@.skip(l),
                )),
        decreases n - k,
    {
        assert(piece@.subrange(0, k as int) =~= piece@.take(k as int));
        assert(piece@.subrange(k as int, n as int) =~= piece@.skip(k as int));
        if (k == 1 || check_among(all, piece, 0, k)) && (k == n - 1 || check_among(
            all,
            piece,
            k,
            n,
        )) {
            assert(is_part(tokeneer, piece@.take(k as int)));
            assert(is_part(tokeneer, piece@.skip(k as int)));
            return true;
        }
        assert(!(is_part(tokeneer, piece@.take(k as int)) && is_part(
            tokeneer,
            piece@.skip(k as int),
        )));
        k = k + 1;
    }
    false
}

/// Whether the token for what is unknown stands for a single byte.
fn check_narrow(tokeneer: &Tokeneer<Bpe>) -> (narrow: bool)
    ensures
        narrow == is_narrow(tokeneer),
{
    let unknown: utok = unk_token(tokeneer);
    if unknown as usize >= vocab_size(tokeneer) {
        return false;
    }
    let bytes = piece(tokeneer, unknown);
    bytes.len() == 1
}

/// Which characters of a text a tokenizer knows.
fn known_characters(tokeneer: &Tokeneer<Bpe>, text: &Vec<char>) -> (known: Vec<bool>)
    ensures
        known.len() == text.len(),
        forall|i: int|
            0 <= i < text.len() ==> #[trigger] known@[i] == knows(tokeneer, text@[i]),
{
    let mut known: Vec<bool> = Vec::new();
    let mut i: usize = 0;
    while i < text.len()
        invariant
            i <= text.len(),
            known.len() == i,
            forall|j: int| 0 <= j < i ==> #[trigger] known@[j] == knows(tokeneer, text@[j]),
        decreases text.len() - i,
    {
        known.push(check_char(tokeneer, text[i]));
        i = i + 1;
    }
    known
}

/// Whether all from `from` to before `to` are true.
fn all_true(known: &Vec<bool>, from: usize, to: usize) -> (all: bool)
    requires
        from <= to <= known.len(),
    ensures
        all == forall|i: int| from <= i < to ==> #[trigger] known@[i],
{
    let mut i: usize = from;
    while i < to
        invariant
            from <= i <= to <= known.len(),
            forall|j: int| from <= j < i ==> #[trigger] known@[j],
        decreases to - i,
    {
        if !known[i] {
            return false;
        }
        i = i + 1;
    }
    true
}

/// The characters from `i` to before `j` meet an unknown one.
fn check_meets(
    tokeneer: &Tokeneer<Bpe>,
    text: &Vec<char>,
    known: &Vec<bool>,
    narrow: bool,
    i: usize,
    j: usize,
) -> (meets: bool)
    requires
        i <= j <= text.len(),
        narrow == is_narrow(tokeneer),
        known.len() == text.len(),
        forall|i: int|
            0 <= i < text.len() ==> #[trigger] known@[i] == knows(tokeneer, text@[i]),
    ensures
        meets == meets_unknown(tokeneer, text@, i as int, j as int),
{
    let inside = all_true(known, i, j);
    proof {
        if inside {
            assert forall|k: int| i <= k < j implies knows(tokeneer, #[trigger] text@[k]) by {
                assert(known@[k]);
            }
        } else {
            let k = choose|k: int| i <= k < j && !(#[trigger] known@[k]);
            assert(!knows(tokeneer, text@[k]));
        }
    }
    !inside || (j < text.len() && !known[j] && !narrow)
}

/// Where a piece stands in a text at `i`, it is not put together of two parts or does not
/// meet an unknown character.
spec fn is_fine_at(
    tokeneer: &Tokeneer<Bpe>,
    text: Seq<char>,
    piece: Seq<char>,
    i: int,
) -> bool {
    i + piece.len() <= text.len() && text.subrange(i, i + piece.len()) == piece && is_joined(
        tokeneer,
        piece,
    ) ==> !meets_unknown(tokeneer, text, i, i + piece.len())
}

/// Whether a piece that is put together of two parts meets no unknown character in a text.
fn check_piece(
    tokeneer: &Tokeneer<Bpe>,
    all: &Vec<Vec<char>>,
    text: &Vec<char>,
    known: &Vec<bool>,
    narrow: bool,
    piece: &Vec<char>,
) -> (fine: bool)
    requires
        narrow == is_narrow(tokeneer),
        known.len() == text.len(),
        forall|i: int|
            0 <= i < text.len() ==> #[trigger] known@[i] == knows(tokeneer, text@[i]),
        forall|text: Seq<char>| #[trigger] is_among(all@, text) <==> is_piece(tokeneer, text),
        is_piece(tokeneer, piece@),
    ensures
        fine ==> forall|i: int|
            0 <= i <= text.len() ==> #[trigger] is_fine_at(tokeneer, text@, piece@, i),
        !fine ==> !encodable(tokeneer, text@),
{
    let mut i: usize = 0;
    while i < text.len()
        invariant
            i <= text.len(),
            narrow == is_narrow(tokeneer),
            known.len() == text.len(),
            forall|i: int|
                0 <= i < text.len() ==> #[trigger] known@[i] == knows(tokeneer, text@[i]),
            forall|text: Seq<char>| #[trigger] is_among(all@, text) <==> is_piece(tokeneer, text),
            is_piece(tokeneer, piece@),
            forall|j: int| 0 <= j < i ==> #[trigger] is_fine_at(tokeneer, text@, piece@, j),
        decreases text.len() - i,
    {
        if stands_at(text, i, piece) && check_meets(
            tokeneer,
            text,
            known,
            narrow,
            i,
            i + piece.len(),
        ) && check_joined(tokeneer, all, piece) {
            assert(is_joined(tokeneer, text@.subrange(i as int, i + piece.len())));
            return false;
        }
        i = i + 1;
    }
    true
}

/// Whether a text can be turned into tokens.
pub fn check_text(tokeneer: &Tokeneer<Bpe>, text: &str) -> (fine: bool)
    ensures
        fine == encodable(tokeneer, text@),
{
    let chars = characters(text);
    let n: usize = chars.len();
    let known = known_characters(tokeneer, &chars);
    if all_true(&known, 0, n) {
        proof {
            assert forall|i: int| 0 <= i < text@.len() implies knows(
                tokeneer,
                #[trigger] text@[i],
            ) by {
                assert(known@[i]);
            }
            law_known_texts_can_be_encoded(tokeneer, text@);
        }
        return true;
    }
    let narrow = check_narrow(tokeneer);
    let all = all_pieces(tokeneer);
    let mut k: usize = 0;
    while k < all.len()
        invariant
            k <= all.len(),
            n == chars.len(),
            chars@ == text@,
            narrow == is_narrow(tokeneer),
            known.len() == chars.len(),
            forall|i: int|
                0 <= i < chars.len() ==> #[trigger] known@[i] == knows(tokeneer, chars@[i]),
            forall|text: Seq<char>| #[trigger] is_among(all@, text) <==> is_piece(tokeneer, text),
            forall|l: int, i: int|
                0 <= l < k && 0 <= i <= n ==> #[trigger] is_fine_at(tokeneer, chars@, all@[l]@, i),
        decreases all.len() - k,
    {
        assert(is_among(all@, all@[k as int]@));
        if !check_piece(tokeneer, &all, &chars, &known, narrow, &all[k]) {
            return false;
        }
        k = k + 1;
    }
    proof {
        assert forall|i: int, j: int|
            0 <= i < j <= text@.len() && #[trigger] is_joined(
                tokeneer,
                text@.subrange(i, j),
            ) implies !meets_unknown(tokeneer, text@, i, j) by {
            let wanted = text@.subrange(i, j);
            assert(is_among(all@, wanted));
            let l = choose|l: int| 0 <= l < all@.len() && (#[trigger] all@[l])@ == wanted;
            assert(is_fine_at(tokeneer, chars@, all@[l]@, i));
        }
    }
    true
}

/// Whether a token stands for a text.
pub fn check_token(tokeneer: &Tokeneer<Bpe>, token: utok) -> (fine: bool)
    ensures
        fine == is_text(tokeneer, token),
{
    if token as usize >= vocab_size(tokeneer) {
        return false;
    }
    let bytes = piece(tokeneer, token);
    is_utf8(bytes.as_slice())
}

/// What is generated from where nothing else is given.
pub fn prompt(given: Option<String>) -> (prompt: String)
    ensures
        prompt@ == match given {
            Some(text) => text@,
            None => "Once upon a time,"@,
        },
{
    match given {
        Some(text) => text,
        None => "Once upon a time,".to_owned(),
    }
}

/// The operators of a model on one device.
pub fn ops() -> (ops: Vec<Op>)
    ensures
        ops@ == seq![
            Op::Embedding,
            Op::RmsNorm,
            Op::LayerNorm,
            Op::Attention,
            Op::Split,
            Op::SwiGLU,
            Op::GeLU,
            Op::Linear,
            Op::Rope,
            Op::Concat,
        ],
{
    let ops: Vec<Op> = vec![
        Op::Embedding,
        Op::RmsNorm,
        Op::LayerNorm,
        Op::Attention,
        Op::Split,
        Op::SwiGLU,
        Op::GeLU,
        Op::Linear,
        Op::Rope,
        Op::Concat,
    ];
    assert(ops@ =~= seq![
        Op::Embedding,
        Op::RmsNorm,
        Op::LayerNorm,
        Op::Attention,
        Op::Split,
        Op::SwiGLU,
        Op::GeLU,
        Op::Linear,
        Op::Rope,
        Op::Concat,
    ]);
    ops
}

/// The memory for weights of `size` bytes: whole pages.
pub fn weight_size(size: usize, page_size: usize) -> (bytes: usize)
    requires
        page_size > 0,
        text::ceil_div(size as nat, page_size as nat) * page_size <= usize::MAX,
    ensures
        bytes == text::ceil_div(size as nat, page_size as nat) * page_size,
{
    div_ceil(size, page_size) * page_size
}

/// The sizes of those weights of which there are fewer than four, in their order.
pub open spec fn rare_sizes(sizes: Seq<(usize, usize)>) -> Seq<usize>
    decreases sizes.len(),
{
    if sizes.len() == 0 {
        seq![]
    } else if sizes.last().1 < 4 {
        rare_sizes(sizes.drop_last()).push(sizes.last().0)
    } else {
        rare_sizes(sizes.drop_last())
    }
}

/// The sizes of weights that the loader gets buffers for, out of all sizes and how often
/// each of them occurs: those that occur fewer than four times.
pub fn loader_sizes(sizes: &Vec<(usize, usize)>) -> (some: Vec<usize>)
    ensures
        some@ == rare_sizes(sizes@),
{
    let mut some: Vec<usize> = Vec::new();
    let mut i: usize = 0;
    while i < sizes.len()
        invariant
            i <= sizes.len(),
            some@ == rare_sizes(sizes@.take(i as int)),
        decreases sizes.len() - i,
    {
        let (size, times) = sizes[i];
        if times < 4 {
            some.push(size);
        }
        assert(sizes@.take(i as int + 1).drop_last() =~= sizes@.take(i as int));
        i = i + 1;
    }
    assert(sizes@.take(sizes.len() as int) =~= sizes@);
    some
}

/// The range at `i` does not occur before.
pub open spec fn is_first(ranges: Seq<(usize, usize)>, i: int) -> bool {
    forall|j: int| 0 <= j < i ==> #[trigger] ranges[j] != ranges[i]
}

/// Which weights are loaded: each range of memory once, where it occurs first.
pub fn loads(ranges: &Vec<(usize, usize)>) -> (loads: Vec<bool>)
    ensures
        loads.len() == ranges.len(),
        forall|i: int|
            0 <= i < ranges.len() ==> #[trigger] loads@[i] == is_first(ranges@, i),
{
    let mut loads: Vec<bool> = Vec::new();
    let mut i: usize = 0;
    while i < ranges.len()
        invariant
            i <= ranges.len(),
            loads.len() == i,
            forall|k: int| 0 <= k < i ==> #[trigger] loads@[k] == is_first(ranges@, k),
        decreases ranges.len() - i,
    {
        let mut first: bool = true;
        let mut j: usize = 0;
        while j < i
            invariant
                j <= i,
                i < ranges.len(),
                first == (forall|k: int| 0 <= k < j ==> #[trigger] ranges@[k] != ranges@[i as int]),
            decreases i - j,
        {
            if ranges[j].0 == ranges[i].0 && ranges[j].1 == ranges[i].1 {
                assert(ranges@[j as int] == ranges@[i as int]);
                first = false;
            }
            j = j + 1;
        }
        loads.push(first);
        i = i + 1;
    }
    loads
}

/// Every range of memory is loaded, by the first weight that has it and by no other.
pub proof fn law_every_range_is_loaded_once(ranges: Seq<(usize, usize)>, i: int)
    requires
        0 <= i < ranges.len(),
    ensures
        exists|j: int|
            0 <= j <= i && #[trigger] ranges[j] == ranges[i] && is_first(ranges, j),
        forall|j: int, k: int|
            0 <= j < k < ranges.len() && #[trigger] ranges[j] == #[trigger] ranges[k]
                ==> !is_first(ranges, k),
    decreases i,
{
    if is_first(ranges, i) {
        assert(ranges[i] == ranges[i]);
    } else {
        let j = choose|j: int| 0 <= j < i && #[trigger] ranges[j] == ranges[i];
        law_every_range_is_loaded_once(ranges, j);
    }
}

/// The numbers of tokens that the model is compiled for.
pub open spec fn compiled() -> Seq<usize> {
    seq![1, 2, 4, 8, 16, 32, 64]
}

/// The numbers of tokens that the model is compiled for: the powers of two up to 64.
pub fn model_sizes() -> (sizes: Vec<usize>)
    ensures
        sizes@ == compiled(),
{
    let mut sizes: Vec<usize> = Vec::new();
    let mut size: usize = 1;
    let mut i: usize = 0;
    while i < 7
        invariant
            i <= 7,
            i < 7 ==> size == compiled()[i as int],
            sizes@ == compiled().take(i as int),
        decreases 7 - i,
    {
        sizes.push(size);
        assert(sizes@ =~= compiled().take(i as int + 1));
        size = size * 2;
        i = i + 1;
    }
    assert(compiled().take(7) =~= compiled());
    sizes
}

/// Which of the compiled models takes a round of `len` tokens: the first that is large
/// enough.
pub fn model_index(len: usize) -> (index: usize)
    requires
        1 <= len <= 64,
    ensures
        index < 7,
        len <= compiled()[index as int],
        index > 0 ==> compiled()[index - 1] < len,
{
    let mut size: usize = 1;
    let mut index: usize = 0;
    while size < len
        invariant
            len <= 64,
            index < 7,
            size == compiled()[index as int],
            index > 0 ==> compiled()[index - 1] < len,
        decreases 7 - index,
    {
        size = size * 2;
        index = index + 1;
    }
    index
}

/// What is generated so far: the tokens of the next round, how many came before them, and
/// all that was printed.
pub struct Generation {
    pub tokens: Vec<utok>,
    pub pos: usize,
    pub printed: String,
}

impl Generation {
    /// The generation stands where rounds from which `nexts` have come lead from a prompt.
    pub open spec fn has_come(
        &self,
        tokeneer: &Tokeneer<Bpe>,
        prompt: Seq<char>,
        nexts: Seq<utok>,
    ) -> bool {
        &&& (self.pos as nat, self.tokens@) == generated(encodings(tokeneer)[prompt], nexts)
        &&& self.printed@ == printed(tokeneer, prompt, nexts)
    }

    /// The beginning: the tokens of the prompt, and none before them. The prompt is printed.
    pub fn new(tokeneer: &Tokeneer<Bpe>, prompt: &str) -> (generation: Self)
        requires
            encodable(tokeneer, prompt@),
        ensures
            generation.tokens@ == encodings(tokeneer)[prompt@],
            generation.pos == 0,
            generation.printed@ == prompt@,
            generation.has_come(tokeneer, prompt@, seq![]),
    {
        Generation { tokens: encode(tokeneer, prompt), pos: 0, printed: prompt.to_owned() }
    }

    /// The beginning, or nothing where the prompt cannot be turned into tokens.
    pub fn begin(tokeneer: &Tokeneer<Bpe>, prompt: &str) -> (generation: Option<Self>)
        ensures
            generation is Some <==> encodable(tokeneer, prompt@),
            generation matches Some(generation) ==> {
                &&& generation.tokens@ == encodings(tokeneer)[prompt@]
                &&& generation.pos == 0
                &&& generation.printed@ == prompt@
                &&& generation.has_come(tokeneer, prompt@, seq![])
            },
    {
        if check_text(tokeneer, prompt) {
            Some(Self::new(tokeneer, prompt))
        } else {
            None
        }
    }

    /// Goes on after a round from which `next` has come: that is the only token of the next
    /// round. Hands out its text, which is printed.
    pub fn advance(&mut self, tokeneer: &Tokeneer<Bpe>, next: utok) -> (text: String)
        requires
            is_text(tokeneer, next),
            old(self).pos + old(self).tokens.len() <= usize::MAX,
        ensures
            text@ == text_of(tokeneer, next),
            final(self).pos == old(self).pos + old(self).tokens.len(),
            final(self).tokens@ == seq![next],
            final(self).printed@ == old(self).printed@ + text@,
            forall|prompt: Seq<char>, nexts: Seq<utok>| #[trigger]
                old(self).has_come(tokeneer, prompt, nexts) ==> final(self).has_come(
                    tokeneer,
                    prompt,
                    nexts.push(next),
                ),
    {
        self.pos = self.pos + self.tokens.len();
        let tokens: Vec<utok> = vec![next];
        assert(tokens@ =~= seq![next]);
        self.tokens = tokens;
        let text = decode(tokeneer, next);
        self.printed.append(text.as_str());
        assert forall|prompt: Seq<char>, nexts: Seq<utok>| #[trigger]
            old(self).has_come(tokeneer, prompt, nexts) implies self.has_come(
            tokeneer,
            prompt,
            nexts.push(next),
        ) by {
            assert(nexts.push(next).drop_last() =~= nexts);
        }
        text
    }

    /// Goes on after a round from which `next` has come. Where that does not stand for a text,
    /// or all tokens can no longer be counted, nothing is handed out and nothing has changed.
    pub fn proceed(&mut self, tokeneer: &Tokeneer<Bpe>, next: utok) -> (text: Option<String>)
        ensures
            text is Some <==> is_text(tokeneer, next) && old(self).pos + old(self).tokens.len()
                <= usize::MAX,
            text is None ==> *final(self) == *old(self),
            text matches Some(text) ==> {
                &&& text@ == text_of(tokeneer, next)
                &&& final(self).pos == old(self).pos + old(self).tokens.len()
                &&& final(self).tokens@ == seq![next]
                &&& final(self).printed@ == old(self).printed@ + text@
                &&& forall|prompt: Seq<char>, nexts: Seq<utok>| #[trigger]
                    old(self).has_come(tokeneer, prompt, nexts) ==> final(self).has_come(
                        tokeneer,
                        prompt,
                        nexts.push(next),
                    )
            },
    {
        if self.tokens.len() <= usize::MAX - self.pos && check_token(tokeneer, next) {
            Some(self.advance(tokeneer, next))
        } else {
            None
        }
    }
}

/// A key-value cache in virtual memory, all of whose pages have physical memory.
pub struct KVCache<M> {
    /// The cache as an array in virtual memory.
    pub tensor: Tensor<M>,
}

impl KVCache<usize> {
    /// The cache of the shape `[nctx, nblk, 2, nkvh, dh]` as `template` has it, read with
    /// the heads first. What stands for its memory is how many bytes it takes.
    pub fn new(template: &Tensor<usize>) -> (cache: Self)
        requires
            template.layout.wf(),
            template.layout.shape@.len() >= 4,
            template.layout.shape@[0] > 0,
        ensures
            cache.tensor.elem == template.elem,
            cache.tensor.item == template.item,
            cache.tensor.layout.wf(),
            cache.tensor.layout.offset == template.layout.offset,
            cache.tensor.layout.shape@.len() == template.layout.shape@.len(),
            cache.tensor.layout.shape@ == template.layout.shape@.update(
                0,
                template.layout.shape@[3],
            ).update(3, template.layout.shape@[0]),
            cache.tensor.layout.strides@ == template.layout.strides@.update(
                0,
                template.layout.strides@[3],
            ).update(3, template.layout.strides@[0]),
            forall|i: int|
                0 <= i < template.layout.shape@.len() ==> {
                    &&& #[trigger] cache.tensor.layout.shape@[i]
                        == template.layout.shape@[kv_cache::heads_first(i)]
                    &&& cache.tensor.layout.strides@[i]
                        == template.layout.strides@[kv_cache::heads_first(i)]
                },
    {
        let perm: Vec<usize> = vec![3, 1, 2, 0];
        let layout = template.layout.transpose(perm.as_slice());
        proof {
            assert(perm@[0] == 3 && perm@[1] == 1 && perm@[2] == 2 && perm@[3] == 0);
            assert forall|i: int| 0 <= i < template.layout.shape@.len() implies #[trigger] tensor::moved_axis(
                perm@,
                i,
            ) == kv_cache::heads_first(i) by {
                reveal_with_fuel(tensor::count_below, 5);
                assert(perm@.drop_last() =~= seq![3usize, 1, 2]);
                assert(perm@.drop_last().drop_last() =~= seq![3usize, 1]);
                assert(perm@.drop_last().drop_last().drop_last() =~= seq![3usize]);
                assert(perm@.drop_last().drop_last().drop_last().drop_last() =~= Seq::<
                    usize,
                >::empty());
            }
        }
        proof {
            let shape = template.layout.shape@;
            let strides = template.layout.strides@;
            assert forall|i: int| 0 <= i < shape.len() implies #[trigger] layout.shape@[i]
                == shape[kv_cache::heads_first(i)] && layout.strides@[i]
                == strides[kv_cache::heads_first(i)] by {
                assert(tensor::moved_axis(perm@, i) == kv_cache::heads_first(i));
            }
            assert forall|i: int| 0 <= i < strides.len() implies #[trigger] layout.strides@[i]
                == strides[kv_cache::heads_first(i)] by {
                assert(layout.shape@[i] == shape[kv_cache::heads_first(i)]);
            }
            assert(layout.shape@ =~= shape.update(0, shape[3]).update(3, shape[0]));
            assert(layout.strides@ =~= strides.update(0, strides[3]).update(3, strides[0]));
        }
        KVCache { tensor: Tensor { elem: template.elem, layout, item: template.item } }
    }
}

/// The indices of a vocabulary of `n` tokens, as an array of 32 bit numbers.
pub fn sample_indices(n: usize) -> (indices: Tensor<usize>)
    requires
        n * 4 <= isize::MAX,
    ensures
        indices.is_dense(seq![n], 4),
        indices.item == n * 4,
{
    let shape: Vec<usize> = vec![n];
    assert(shape@ =~= seq![n]);
    proof {
        reveal_with_fuel(tensor::product, 2);
        assert(seq![n].skip(0) =~= seq![n]);
        assert(seq![n].skip(1) =~= Seq::<usize>::empty());
        assert(seq![n].drop_first() =~= Seq::<usize>::empty());
        assert(tensor::product(Seq::<usize>::empty()) == 1);
        assert(tensor::product(seq![n]) == n as nat * 1);
        assert forall|i: int| -1 <= i < 1 implies #[trigger] tensor::dense_stride(seq![n], 4, i)
            <= isize::MAX by {}
    }
    Tensor::new(4, shape)
}

/// What the sampling of one token needs, with `pair_size` bytes for its result.
pub fn output_head(n: usize, pair_size: usize) -> (head: OutputHead<usize>)
    requires
        n * 4 <= isize::MAX,
    ensures
        head.indices.is_dense(seq![n], 4),
        head.indices.item == n * 4,
        head.kv_pair == pair_size,
        head.kv_pair_host == pair_size,
{
    OutputHead { indices: sample_indices(n), kv_pair: pair_size, kv_pair_host: pair_size }
}

/// The pages for weights hold them, and less than a page is left over.
pub proof fn law_weights_fit_their_pages(size: nat, page_size: nat)
    requires
        page_size > 0,
    ensures
        size <= text::ceil_div(size, page_size) * page_size < size + page_size,
        (text::ceil_div(size, page_size) * page_size) % page_size == 0,
{
    kv_cache::law_pages_hold_the_tokens(1, size, page_size);
    assert(1 * size == size);
    let pages = text::ceil_div(size, page_size);
    assert(pages * page_size - page_size == (pages - 1) * page_size) by (nonlinear_arith);
    if pages == 0 {
        assert(pages * page_size == 0) by (nonlinear_arith)
            requires
                pages == 0,
        ;
    }
    vstd::arithmetic::div_mod::lemma_mod_multiples_basic(pages as int, page_size as int);
}

/// How far a generation is after the rounds from which `nexts` have come: how many tokens
/// came before the next round, and the tokens of that round.
pub open spec fn generated(prompt: Seq<utok>, nexts: Seq<utok>) -> (nat, Seq<utok>)
    decreases nexts.len(),
{
    if nexts.len() == 0 {
        (0, prompt)
    } else {
        let (pos, tokens) = generated(prompt, nexts.drop_last());
        (pos + tokens.len(), seq![nexts.last()])
    }
}

/// All that is printed after the rounds from which `nexts` have come: the prompt, and behind it
/// the text of each token.
pub open spec fn printed(
    tokeneer: &Tokeneer<Bpe>,
    prompt: Seq<char>,
    nexts: Seq<utok>,
) -> Seq<char>
    decreases nexts.len(),
{
    if nexts.len() == 0 {
        prompt
    } else {
        printed(tokeneer, prompt, nexts.drop_last()) + text_of(tokeneer, nexts.last())
    }
}

/// The texts of some tokens, one behind the other.
pub open spec fn texts(tokeneer: &Tokeneer<Bpe>, tokens: Seq<utok>) -> Seq<char> {
    tokens.map_values(|token: utok| text_of(tokeneer, token)).flatten()
}

/// Texts of characters that the tokenizer knows can be turned into tokens.
pub proof fn law_known_texts_can_be_encoded(tokeneer: &Tokeneer<Bpe>, text: Seq<char>)
    requires
        forall|i: int| 0 <= i < text.len() ==> knows(tokeneer, #[trigger] text[i]),
    ensures
        encodable(tokeneer, text),
{
}

/// Unknown characters do no harm to a text in which no piece is put together of two parts, such
/// as one of a single character.
pub proof fn law_unjoined_texts_can_be_encoded(tokeneer: &Tokeneer<Bpe>, text: Seq<char>)
    requires
        text.len() <= 1 || forall|i: int, j: int|
            0 <= i < j <= text.len() ==> !is_joined(tokeneer, #[trigger] text.subrange(i, j)),
    ensures
        encodable(tokeneer, text),
{
}

/// What is printed is the prompt followed by the texts of all tokens that have come, in their
/// order and nothing else.
pub proof fn law_prompt_and_tokens_are_printed(
    tokeneer: &Tokeneer<Bpe>,
    prompt: Seq<char>,
    nexts: Seq<utok>,
)
    ensures
        printed(tokeneer, prompt, nexts) == prompt + texts(tokeneer, nexts),
    decreases nexts.len(),
{
    let all = nexts.map_values(|token: utok| text_of(tokeneer, token));
    if nexts.len() == 0 {
        assert(all =~= Seq::<Seq<char>>::empty());
        assert(prompt + texts(tokeneer, nexts) =~= prompt);
    } else {
        let front = nexts.drop_last().map_values(|token: utok| text_of(tokeneer, token));
        law_prompt_and_tokens_are_printed(tokeneer, prompt, nexts.drop_last());
        assert(all.drop_last() =~= front);
        all.lemma_flatten_and_flatten_alt_are_equivalent();
        front.lemma_flatten_and_flatten_alt_are_equivalent();
        assert(texts(tokeneer, nexts) == texts(tokeneer, nexts.drop_last()) + text_of(
            tokeneer,
            nexts.last(),
        ));
        assert(printed(tokeneer, prompt, nexts) =~= prompt + texts(tokeneer, nexts));
    }
}

/// The first round gets the whole prompt from position 0 on; every later one gets the token
/// that came last, at the position behind all tokens that were fed so far.
pub proof fn law_rounds_are_fed_in_order(
    generation: Generation,
    tokeneer: &Tokeneer<Bpe>,
    prompt: Seq<char>,
    nexts: Seq<utok>,
)
    requires
        generation.has_come(tokeneer, prompt, nexts),
    ensures
        nexts.len() == 0 ==> generation.tokens@ == encodings(tokeneer)[prompt] && generation.pos
            == 0,
        nexts.len() > 0 ==> generation.tokens@ == seq![nexts.last()] && generation.pos
            == encodings(tokeneer)[prompt].len() + nexts.len() - 1,
        generation.printed@ == prompt + texts(tokeneer, nexts),
{
    if nexts.len() > 0 {
        law_positions_count_all_tokens(encodings(tokeneer)[prompt], nexts);
    }
    law_prompt_and_tokens_are_printed(tokeneer, prompt, nexts);
}

/// The position counts every token that was put in or came out, but for the one that is
/// next.
pub proof fn law_positions_count_all_tokens(prompt: Seq<utok>, nexts: Seq<utok>)
    requires
        nexts.len() > 0,
    ensures
        generated(prompt, nexts).0 == prompt.len() + nexts.len() - 1,
        generated(prompt, nexts).1 == seq![nexts.last()],
    decreases nexts.len(),
{
    reveal_with_fuel(generated, 2);
    if nexts.len() > 1 {
        law_positions_count_all_tokens(prompt, nexts.drop_last());
    }
}

/// The loader gets buffers for the sizes that occur fewer than four times, and for no others, in
/// their order.
pub proof fn law_rare_sizes_get_buffers(sizes: Seq<(usize, usize)>)
    ensures
        rare_sizes(sizes) == sizes.filter(|s: (usize, usize)| s.1 < 4).map_values(
            |s: (usize, usize)| s.0,
        ),
    decreases sizes.len(),
{
    let rare = |s: (usize, usize)| s.1 < 4;
    let size = |s: (usize, usize)| s.0;
    reveal(Seq::filter);
    if sizes.len() > 0 {
        let front = sizes.drop_last();
        law_rare_sizes_get_buffers(front);
        if rare(sizes.last()) {
            assert(front.filter(rare).push(sizes.last()).map_values(size) =~= front.filter(
                rare,
            ).map_values(size).push(sizes.last().0));
        }
    } else {
        assert(sizes.filter(rare).map_values(size) =~= Seq::<usize>::empty());
    }
}

/// A weight is loaded exactly when no weight before it has the same range.
pub proof fn law_loading_is_for_new_ranges(ranges: Seq<(usize, usize)>, i: int)
    requires
        0 <= i < ranges.len(),
    ensures
        is_first(ranges, i) <==> !ranges.take(i).contains(ranges[i]),
{
    if ranges.take(i).contains(ranges[i]) {
        let j = choose|j: int| 0 <= j < i && ranges.take(i)[j] == ranges[i];
        assert(ranges[j] == ranges[i]);
    }
    if !is_first(ranges, i) {
        let j = choose|j: int| 0 <= j < i && #[trigger] ranges[j] == ranges[i];
        assert(ranges.take(i)[j] == ranges[i]);
    }
}

/// The model is compiled for one token and, each time, for twice as many as before, up to 64.
pub proof fn law_models_double(i: int)
    requires
        0 <= i < 6,
    ensures
        compiled().len() == 7,
        compiled()[0] == 1,
        compiled()[i + 1] == 2 * compiled()[i],
{
}

/// Every token that comes prints the text that its bytes are in UTF-8, behind all that was printed
/// before, and is all that the next round is fed, behind all that was fed before.
pub proof fn law_each_token_prints_its_text(
    tokeneer: &Tokeneer<Bpe>,
    prompt: Seq<char>,
    fed: Seq<utok>,
    nexts: Seq<utok>,
    next: utok,
)
    ensures
        printed(tokeneer, prompt, Seq::<utok>::empty()) == prompt,
        printed(tokeneer, prompt, nexts.push(next)) == printed(tokeneer, prompt, nexts)
            + vstd::utf8::decode_utf8(pieces(tokeneer)[next]),
        generated(fed, Seq::<utok>::empty()) == (0nat, fed),
        generated(fed, nexts.push(next)).1 == seq![next],
        generated(fed, nexts.push(next)).0 == generated(fed, nexts).0 + generated(
            fed,
            nexts,
        ).1.len(),
{
    assert(nexts.push(next).drop_last() =~= nexts);
}

/// A generation that has come some way from a prompt was fed the tokens of the prompt and then
/// one token after the other, and has printed the prompt and then their texts.
pub proof fn law_generations_go_on(
    before: Generation,
    after: Generation,
    tokeneer: &Tokeneer<Bpe>,
    prompt: Seq<char>,
    nexts: Seq<utok>,
    next: utok,
)
    requires
        before.has_come(tokeneer, prompt, nexts),
        after.has_come(tokeneer, prompt, nexts.push(next)),
    ensures
        after.pos == before.pos + before.tokens@.len(),
        after.tokens@ == seq![next],
        after.printed@ == before.printed@ + vstd::utf8::decode_utf8(pieces(tokeneer)[next]),
        nexts.len() == 0 ==> before.pos == 0 && before.tokens@ == encodings(tokeneer)[prompt]
            && before.printed@ == prompt,
{
    law_each_token_prints_its_text(tokeneer, prompt, encodings(tokeneer)[prompt], nexts, next);
    assert(nexts.len() == 0 ==> nexts =~= Seq::<utok>::empty());
}

/// Where a text holds two characters next to each other that are a piece together, and the
/// tokenizer does not know one of them, the text cannot be turned into tokens.
pub proof fn law_pairs_with_unknowns_are_refused(
    tokeneer: &Tokeneer<Bpe>,
    text: Seq<char>,
    i: int,
    token: utok,
)
    requires
        0 <= i,
        i + 1 < text.len(),
        token != unknown_token(tokeneer),
        pieces(tokeneer).contains_key(token),
        vstd::utf8::valid_utf8(pieces(tokeneer)[token]),
        vstd::utf8::decode_utf8(pieces(tokeneer)[token]) == seq![text[i], text[i + 1]],
        encodings(tokeneer)[seq![text[i]]].contains(unknown_token(tokeneer)) || encodings(
            tokeneer,
        )[seq![text[i + 1]]].contains(unknown_token(tokeneer)),
    ensures
        !encodable(tokeneer, text),
{
    let pair = text.subrange(i, i + 2);
    assert(pair =~= seq![text[i], text[i + 1]]);
    assert(is_text(tokeneer, token));
    assert(is_piece(tokeneer, pair));
    assert(pair.take(1).len() == 1 && pair.skip(1).len() == 1);
    assert(is_joined(tokeneer, pair));
    assert(!knows(tokeneer, text[i]) || !knows(tokeneer, text[i + 1]));
    assert(meets_unknown(tokeneer, text, i, i + 2));
}

/// A text can be turned into tokens where no token but the unknown one stands for several of its
/// characters that hold an unknown one or stand right before one.
pub proof fn law_harmless_texts_can_be_encoded(tokeneer: &Tokeneer<Bpe>, text: Seq<char>)
    requires
        forall|token: utok, i: int, j: int|
            #![trigger pieces(tokeneer)[token], text.subrange(i, j)]
            {
                &&& 0 <= i
                &&& i + 1 < j <= text.len()
                &&& token != unknown_token(tokeneer)
                &&& pieces(tokeneer).contains_key(token)
                &&& vstd::utf8::valid_utf8(pieces(tokeneer)[token])
                &&& vstd::utf8::decode_utf8(pieces(tokeneer)[token]) == text.subrange(i, j)
            } ==> forall|k: int|
                i <= k <= j && k < text.len() ==> !encodings(tokeneer)[seq![
                    #[trigger] text[k],
                ]].contains(unknown_token(tokeneer)),
    ensures
        encodable(tokeneer, text),
{
    assert forall|i: int, j: int|
        0 <= i < j <= text.len() && #[trigger] is_joined(
            tokeneer,
            text.subrange(i, j),
        ) implies !meets_unknown(tokeneer, text, i, j) by {
        let part = text.subrange(i, j);
        let token = choose|token: utok| #[trigger]
            is_text(tokeneer, token) && token != unknown_token(tokeneer) && text_of(tokeneer, token)
                == part;
        assert(vstd::utf8::decode_utf8(pieces(tokeneer)[token]) == text.subrange(i, j));
        assert(part.len() == j - i);
        if meets_unknown(tokeneer, text, i, j) {
            if exists|k: int| i <= k < j && !knows(tokeneer, #[trigger] text[k]) {
                let k = choose|k: int| i <= k < j && !knows(tokeneer, #[trigger] text[k]);
                assert(!encodings(tokeneer)[seq![text[k]]].contains(unknown_token(tokeneer)));
            } else {
                assert(!encodings(tokeneer)[seq![text[j]]].contains(unknown_token(tokeneer)));
            }
        }
    }
}

/// Where two characters next to each other are a piece together and an unknown character follows,
/// the text cannot be turned into tokens, unless the unknown token is one byte long.
pub proof fn law_pairs_before_unknowns_are_refused(
    tokeneer: &Tokeneer<Bpe>,
    text: Seq<char>,
    i: int,
    token: utok,
)
    requires
        0 <= i,
        i + 2 < text.len(),
        token != unknown_token(tokeneer),
        pieces(tokeneer).contains_key(token),
        vstd::utf8::valid_utf8(pieces(tokeneer)[token]),
        vstd::utf8::decode_utf8(pieces(tokeneer)[token]) == seq![text[i], text[i + 1]],
        encodings(tokeneer)[seq![text[i + 2]]].contains(unknown_token(tokeneer)),
        pieces(tokeneer).contains_key(unknown_token(tokeneer)) ==> pieces(
            tokeneer,
        )[unknown_token(tokeneer)].len() != 1,
    ensures
        !encodable(tokeneer, text),
{
    let pair = text.subrange(i, i + 2);
    assert(pair =~= seq![text[i], text[i + 1]]);
    assert(is_text(tokeneer, token));
    assert(is_piece(tokeneer, pair));
    assert(pair.take(1).len() == 1 && pair.skip(1).len() == 1);
    assert(is_joined(tokeneer, pair));
    assert(meets_unknown(tokeneer, text, i, i + 2));
}

/// Where a token stands for several characters of a text that two other tokens, or single
/// characters, make up, and they hold an unknown character or stand right before one whose token
/// is not one byte long, the text cannot be turned into tokens.
pub proof fn law_merges_that_meet_unknowns_are_refused(
    tokeneer: &Tokeneer<Bpe>,
    text: Seq<char>,
    whole: utok,
    left: utok,
    right: utok,
    i: int,
    k: int,
    j: int,
    at: int,
)
    requires
        0 <= i < k < j <= text.len(),
        ({
            let unknown = unknown_token(tokeneer);
            let stands_for = |token: utok, part: Seq<char>|
                {
                    &&& token != unknown
                    &&& pieces(tokeneer).contains_key(token)
                    &&& vstd::utf8::valid_utf8(pieces(tokeneer)[token])
                    &&& vstd::utf8::decode_utf8(pieces(tokeneer)[token]) == part
                };
            &&& stands_for(whole, text.subrange(i, j))
            &&& k == i + 1 || stands_for(left, text.subrange(i, k))
            &&& k == j - 1 || stands_for(right, text.subrange(k, j))
            &&& i <= at <= j
            &&& at < text.len()
            &&& encodings(tokeneer)[seq![text[at]]].contains(unknown)
            &&& at == j ==> !(pieces(tokeneer).contains_key(unknown) && pieces(
                tokeneer,
            )[unknown].len() == 1)
        }),
    ensures
        !encodable(tokeneer, text),
{
    let part = text.subrange(i, j);
    assert(is_text(tokeneer, whole));
    assert(is_piece(tokeneer, part));
    assert(part.take(k - i) =~= text.subrange(i, k));
    assert(part.skip(k - i) =~= text.subrange(k, j));
    if k != i + 1 {
        assert(is_text(tokeneer, left));
    }
    if k != j - 1 {
        assert(is_text(tokeneer, right));
    }
    assert(is_part(tokeneer, part.take(k - i)));
    assert(is_part(tokeneer, part.skip(k - i)));
    assert(is_joined(tokeneer, part));
    assert(!knows(tokeneer, text[at]));
    assert(meets_unknown(tokeneer, text, i, j));
}

/// A text is refused only where a token stands for several of its characters that two parts make
/// up, each a single character or what a token stands for, and they hold an unknown character or
/// stand right before one.
pub proof fn law_texts_are_refused_for_a_merge(tokeneer: &Tokeneer<Bpe>, text: Seq<char>)
    requires
        !encodable(tokeneer, text),
    ensures
        exists|whole: utok, i: int, k: int, j: int|
            #![trigger pieces(tokeneer)[whole], text.subrange(i, k), text.subrange(k, j)]
            {
                let unknown = unknown_token(tokeneer);
                let stands_for = |token: utok, part: Seq<char>|
                    {
                        &&& token != unknown
                        &&& pieces(tokeneer).contains_key(token)
                        &&& vstd::utf8::decode_utf8(pieces(tokeneer)[token]) == part
                    };
                &&& 0 <= i < k < j <= text.len()
                &&& stands_for(whole, text.subrange(i, j))
                &&& k == i + 1 || exists|left: utok|
                    #![trigger pieces(tokeneer)[left]]
                    stands_for(left, text.subrange(i, k))
                &&& k == j - 1 || exists|right: utok|
                    #![trigger pieces(tokeneer)[right]]
                    stands_for(right, text.subrange(k, j))
                &&& exists|at: int|
                    i <= at <= j && at < text.len() && encodings(tokeneer)[seq![
                        #[trigger] text[at],
                    ]].contains(unknown)
            },
{
    let (i, j) = choose|i: int, j: int|
        0 <= i < j <= text.len() && #[trigger] is_joined(tokeneer, text.subrange(i, j))
            && meets_unknown(tokeneer, text, i, j);
    let unknown = unknown_token(tokeneer);
    let part = text.subrange(i, j);
    let whole = choose|token: utok| #[trigger]
        is_text(tokeneer, token) && token != unknown && text_of(tokeneer, token) == part;
    let l = choose|l: int|
        0 < l < part.len() && is_part(tokeneer, #[trigger] part.take(l)) && is_part(
            tokeneer,
            part.skip(l),
        );
    let k = i + l;
    assert(part.take(l) =~= text.subrange(i, k));
    assert(part.skip(l) =~= text.subrange(k, j));
    if k != i + 1 {
        let left = choose|token: utok| #[trigger]
            is_text(tokeneer, token) && token != unknown && text_of(tokeneer, token) == part.take(
                l,
            );
        assert(vstd::utf8::decode_utf8(pieces(tokeneer)[left]) == text.subrange(i, k));
    }
    if k != j - 1 {
        let right = choose|token: utok| #[trigger]
            is_text(tokeneer, token) && token != unknown && text_of(tokeneer, token) == part.skip(
                l,
            );
        assert(vstd::utf8::decode_utf8(pieces(tokeneer)[right]) == text.subrange(k, j));
    }
    if exists|at: int| i <= at < j && !knows(tokeneer, #[trigger] text[at]) {
        let at = choose|at: int| i <= at < j && !knows(tokeneer, #[trigger] text[at]);
        assert(encodings(tokeneer)[seq![text[at]]].contains(unknown));
    } else {
        assert(encodings(tokeneer)[seq![text[j]]].contains(unknown));
    }
    assert(vstd::utf8::decode_utf8(pieces(tokeneer)[whole]) == text.subrange(i, j));
}

} // verus!
