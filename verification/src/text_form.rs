use crate::blocks::Block;
use crate::numbers::{decimal_text, is_digit, lemma_numeral_of_decimal_text, numeral};
use crate::operations::{operation_text, Operation};
use crate::render::{block_text, operations_text, script_text};
use crate::text::is_space;
use crate::token_stream::{
    is_lexeme, lemma_lexemes_across_space, lemma_lexemes_of_word, lexemes,
};
use vstd::prelude::*;

verus! {

/// The words that the operations of a span are written with.
pub open spec fn operation_words(ops: Seq<Operation>) -> Seq<Seq<char>> {
    Seq::new(ops.len(), |i: int| operation_text(ops[i]))
}

/// The words of the textual form of a block tree.
pub open spec fn block_words(block: Block) -> Seq<Seq<char>>
    decreases block,
{
    match block {
        Block::Span(ops) => seq!["span"@] + operation_words(ops) + seq!["end"@],
        Block::Join(left, right) => seq!["join"@] + block_words(*left) + block_words(*right)
            + seq!["end"@],
        Block::Split(on_true, on_false) => seq!["if.true"@] + block_words(*on_true) + seq![
            "else"@,
        ] + block_words(*on_false) + seq!["end"@],
        Block::Loop(body) => seq!["loop"@] + block_words(*body) + seq!["end"@],
    }
}

/// An operation is written as one word, which is not the word `end`.
pub proof fn lemma_operation_word(op: Operation)
    ensures
        is_lexeme(operation_text(op)),
        operation_text(op) != "end"@,
        operation_text(op).len() >= 2,
{
    reveal_strlit("noop");
    reveal_strlit("assert");
    reveal_strlit("push(");
    reveal_strlit(")");
    reveal_strlit("drop");
    reveal_strlit("dup");
    reveal_strlit("swap");
    reveal_strlit("add");
    reveal_strlit("neg");
    reveal_strlit("mul");
    reveal_strlit("inv");
    reveal_strlit("not");
    reveal_strlit("and");
    reveal_strlit("or");
    reveal_strlit("eq");
    reveal_strlit("end");
    assert("end"@[0] == 'e');
    assert(operation_text(op).len() == 3 ==> operation_text(op)[0] != 'e');
    if let Operation::Push(value) = op {
        let digits = decimal_text(value as nat);
        lemma_numeral_of_decimal_text(value as nat);
        let text = operation_text(op);
        assert(text.len() == digits.len() + 6);
        assert forall|i: int| 0 <= i < text.len() implies !is_space(
            #[trigger] text[i],
        ) by {
            if 5 <= i < 5 + digits.len() {
                assert(text[i] == digits[i - 5]);
                assert(is_digit(digits[i - 5]));
            }
        }
    }
}

/// The first character of the text of an operation and the length of the
/// text tell which operation it is, but for the value of a `push`.
proof fn lemma_operation_texts_differ(first: Operation, second: Operation)
    requires
        operation_text(first) == operation_text(second),
    ensures
        first == second,
{
    reveal_strlit("noop");
    reveal_strlit("assert");
    reveal_strlit("push(");
    reveal_strlit(")");
    reveal_strlit("drop");
    reveal_strlit("dup");
    reveal_strlit("swap");
    reveal_strlit("add");
    reveal_strlit("neg");
    reveal_strlit("mul");
    reveal_strlit("inv");
    reveal_strlit("not");
    reveal_strlit("and");
    reveal_strlit("or");
    reveal_strlit("eq");
    let a = operation_text(first);
    let b = operation_text(second);
    assert(a[0] == b[0]);
    assert(a[1] == b[1]);
    assert(a.len() == b.len());
    if let Operation::Push(x) = first {
        let dx = decimal_text(x as nat);
        assert(a.len() == dx.len() + 6);
        assert(a[4] == '(');
        if let Operation::Push(y) = second {
            let dy = decimal_text(y as nat);
            assert(b.len() == dy.len() + 6);
            assert(dx =~= a.subrange(5, a.len() - 1));
            assert(dy =~= b.subrange(5, b.len() - 1));
            lemma_numeral_of_decimal_text(x as nat);
            lemma_numeral_of_decimal_text(y as nat);
            assert(numeral(dx) == numeral(dy));
        } else {
            assert(b.len() >= 5 ==> b[4] == a[4]);
        }
    } else if let Operation::Push(y) = second {
        let dy = decimal_text(y as nat);
        assert(b.len() == dy.len() + 6);
        assert(b[4] == '(');
        assert(a.len() >= 5 ==> a[4] == b[4]);
    } else {
        assert(a.len() >= 3 ==> a[2] == b[2]);
    }
}

/// No two operations are written alike.
pub proof fn lemma_operation_text_is_distinct(first: Operation, second: Operation)
    ensures
        operation_text(first) == operation_text(second) <==> first == second,
{
    if operation_text(first) == operation_text(second) {
        lemma_operation_texts_differ(first, second);
    }
}

/// The lexemes of two texts with a space between them.
proof fn lemma_lexemes_joined(first: Seq<char>, second: Seq<char>)
    ensures
        lexemes(first + " "@ + second) == lexemes(first) + lexemes(second),
        lexemes(first + seq![' '] + second) == lexemes(first) + lexemes(second),
{
    reveal_strlit(" ");
    assert(" "@ =~= seq![' ']);
    assert(first + seq![' '] + second =~= first.push(' ') + second);
    lemma_lexemes_across_space(first, ' ', second);
}

/// The words that frame the blocks are lexemes, and where a space stands
/// in the texts that hold them.
proof fn lemma_frame_words()
    ensures
        is_lexeme("span"@),
        is_lexeme("join"@),
        is_lexeme("if.true"@),
        is_lexeme("else"@),
        is_lexeme("loop"@),
        is_lexeme("end"@),
        is_lexeme("begin"@),
        "join "@ == "join"@ + seq![' '],
        "if.true "@ == "if.true"@ + seq![' '],
        "loop "@ == "loop"@ + seq![' '],
        "begin "@ == "begin"@ + seq![' '],
        " else "@ == seq![' '] + "else"@ + seq![' '],
        " end"@ == seq![' '] + "end"@,
{
    reveal_strlit("span");
    reveal_strlit("join");
    reveal_strlit("if.true");
    reveal_strlit("else");
    reveal_strlit("loop");
    reveal_strlit("end");
    reveal_strlit("begin");
    reveal_strlit("join ");
    reveal_strlit("if.true ");
    reveal_strlit("loop ");
    reveal_strlit("begin ");
    reveal_strlit(" else ");
    reveal_strlit(" end");
    assert("join "@ =~= "join"@ + seq![' ']);
    assert("if.true "@ =~= "if.true"@ + seq![' ']);
    assert("loop "@ =~= "loop"@ + seq![' ']);
    assert("begin "@ =~= "begin"@ + seq![' ']);
    assert(" else "@ =~= seq![' '] + "else"@ + seq![' ']);
    assert(" end"@ =~= seq![' '] + "end"@);
}

/// The lexemes of a text that ends in the operations of a span: each
/// operation is one more lexeme.
proof fn lemma_lexemes_of_operations(prefix: Seq<char>, ops: Seq<Operation>)
    ensures
        lexemes(prefix + operations_text(ops)) == lexemes(prefix) + operation_words(ops),
    decreases ops.len(),
{
    if ops.len() == 0 {
        assert(prefix + operations_text(ops) == prefix);
        assert(lexemes(prefix) + operation_words(ops) == lexemes(prefix));
    } else {
        let shorter = ops.drop_last();
        let word = operation_text(ops.last());
        lemma_lexemes_of_operations(prefix, shorter);
        lemma_operation_word(ops.last());
        lemma_lexemes_of_word(word);
        lemma_lexemes_joined(prefix + operations_text(shorter), word);
        assert(prefix + operations_text(ops) =~= prefix + operations_text(shorter) + " "@ + word);
        assert(operation_words(ops) =~= operation_words(shorter).push(word));
        assert(lexemes(prefix) + operation_words(shorter) + seq![word] =~= lexemes(prefix)
            + operation_words(ops));
    }
}

/// The lexemes of the text of a block are the words of the block.
pub proof fn lemma_lexemes_of_block(block: Block)
    ensures
        lexemes(block_text(block)) == block_words(block),
    decreases block,
{
    lemma_frame_words();
    lemma_lexemes_of_word("end"@);
    let text = block_text(block);
    match block {
        Block::Span(ops) => {
            let inner = "span"@ + operations_text(ops);
            lemma_lexemes_of_word("span"@);
            lemma_lexemes_of_operations("span"@, ops);
            lemma_lexemes_joined(inner, "end"@);
            assert(text =~= inner + seq![' '] + "end"@);
        },
        Block::Join(left, right) => {
            lemma_lexemes_of_word("join"@);
            lemma_lexemes_of_block(*left);
            lemma_lexemes_of_block(*right);
            let first = "join"@ + seq![' '] + block_text(*left);
            let second = first + seq![' '] + block_text(*right);
            lemma_lexemes_joined("join"@, block_text(*left));
            lemma_lexemes_joined(first, block_text(*right));
            lemma_lexemes_joined(second, "end"@);
            assert(" "@ =~= seq![' ']) by {
                reveal_strlit(" ");
            }
            assert(text =~= second + seq![' '] + "end"@);
        },
        Block::Split(on_true, on_false) => {
            lemma_lexemes_of_word("if.true"@);
            lemma_lexemes_of_word("else"@);
            lemma_lexemes_of_block(*on_true);
            lemma_lexemes_of_block(*on_false);
            let first = "if.true"@ + seq![' '] + block_text(*on_true);
            let second = first + seq![' '] + "else"@;
            let third = second + seq![' '] + block_text(*on_false);
            lemma_lexemes_joined("if.true"@, block_text(*on_true));
            lemma_lexemes_joined(first, "else"@);
            lemma_lexemes_joined(second, block_text(*on_false));
            lemma_lexemes_joined(third, "end"@);
            assert(text =~= third + seq![' '] + "end"@);
        },
        Block::Loop(body) => {
            lemma_lexemes_of_word("loop"@);
            lemma_lexemes_of_block(*body);
            let first = "loop"@ + seq![' '] + block_text(*body);
            lemma_lexemes_joined("loop"@, block_text(*body));
            lemma_lexemes_joined(first, "end"@);
            assert(text =~= first + seq![' '] + "end"@);
        },
    }
}

/// The words of a span's operations end at the first `end`: what follows
/// the operations and their `end` is told apart from them.
proof fn lemma_operation_words_end(
    first: Seq<Operation>,
    after_first: Seq<Seq<char>>,
    second: Seq<Operation>,
    after_second: Seq<Seq<char>>,
)
    requires
        operation_words(first) + seq!["end"@] + after_first == operation_words(second) + seq![
            "end"@,
        ] + after_second,
    ensures
        first == second,
        after_first == after_second,
    decreases first.len(),
{
    let left = operation_words(first) + seq!["end"@] + after_first;
    let right = operation_words(second) + seq!["end"@] + after_second;
    if first.len() > 0 {
        lemma_operation_word(first[0]);
        assert(left[0] == operation_text(first[0]));
    } else {
        assert(left[0] == "end"@);
    }
    if second.len() > 0 {
        lemma_operation_word(second[0]);
        assert(right[0] == operation_text(second[0]));
    } else {
        assert(right[0] == "end"@);
    }
    if first.len() == 0 {
        assert(after_first =~= left.skip(1));
        assert(after_second =~= right.skip(1));
        assert(first =~= second);
    } else {
        lemma_operation_text_is_distinct(first[0], second[0]);
        assert(left.skip(1) =~= operation_words(first.skip(1)) + seq!["end"@] + after_first);
        assert(right.skip(1) =~= operation_words(second.skip(1)) + seq!["end"@] + after_second);
        lemma_operation_words_end(first.skip(1), after_first, second.skip(1), after_second);
        assert(first =~= seq![first[0]] + first.skip(1));
        assert(second =~= seq![second[0]] + second.skip(1));
    }
}

/// The word that the text of a block begins with.
pub open spec fn first_word(block: Block) -> Seq<char> {
    match block {
        Block::Span(_) => "span"@,
        Block::Join(_, _) => "join"@,
        Block::Split(_, _) => "if.true"@,
        Block::Loop(_) => "loop"@,
    }
}

/// The first word of a block tells its kind.
proof fn lemma_first_word(first: Block, second: Block)
    ensures
        block_words(first)[0] == first_word(first),
        first_word(first) == first_word(second) ==> {
            &&& first is Span <==> second is Span
            &&& first is Join <==> second is Join
            &&& first is Split <==> second is Split
            &&& first is Loop <==> second is Loop
        },
{
    reveal_strlit("span");
    reveal_strlit("join");
    reveal_strlit("if.true");
    reveal_strlit("loop");
    assert("span"@[0] == 's');
    assert("join"@[0] == 'j');
    assert("if.true"@[0] == 'i');
    assert("loop"@[0] == 'l');
}

/// The words of a block end where the block ends: where the words of two
/// blocks, each followed by more words, are the same, the blocks are the
/// same and so is what follows them.
pub proof fn lemma_block_words_end(
    first: Block,
    after_first: Seq<Seq<char>>,
    second: Block,
    after_second: Seq<Seq<char>>,
)
    requires
        block_words(first) + after_first == block_words(second) + after_second,
    ensures
        first == second,
        after_first == after_second,
    decreases first,
{
    let left = block_words(first) + after_first;
    let right = block_words(second) + after_second;
    lemma_first_word(first, second);
    lemma_first_word(second, first);
    assert(left[0] == first_word(first));
    assert(right[0] == first_word(second));
    let end = seq!["end"@];
    match first {
        Block::Span(ops) => {
            let others = second->Span_0;
            assert(left.skip(1) =~= operation_words(ops) + end + after_first);
            assert(right.skip(1) =~= operation_words(others) + end + after_second);
            lemma_operation_words_end(ops, after_first, others, after_second);
        },
        Block::Join(left_child, right_child) => {
            let other_left = *second->Join_0;
            let other_right = *second->Join_1;
            let rest = block_words(*right_child) + (end + after_first);
            let other_rest = block_words(other_right) + (end + after_second);
            assert(left.skip(1) =~= block_words(*left_child) + rest);
            assert(right.skip(1) =~= block_words(other_left) + other_rest);
            lemma_block_words_end(*left_child, rest, other_left, other_rest);
            lemma_block_words_end(*right_child, end + after_first, other_right, end + after_second);
            assert(after_first =~= (end + after_first).skip(1));
            assert(after_second =~= (end + after_second).skip(1));
        },
        Block::Split(on_true, on_false) => {
            let other_true = *second->Split_0;
            let other_false = *second->Split_1;
            let otherwise = seq!["else"@];
            let tail = block_words(*on_false) + (end + after_first);
            let other_tail = block_words(other_false) + (end + after_second);
            let rest = otherwise + tail;
            let other_rest = otherwise + other_tail;
            assert(left.skip(1) =~= block_words(*on_true) + rest);
            assert(right.skip(1) =~= block_words(other_true) + other_rest);
            lemma_block_words_end(*on_true, rest, other_true, other_rest);
            assert(tail =~= rest.skip(1));
            assert(other_tail =~= other_rest.skip(1));
            lemma_block_words_end(*on_false, end + after_first, other_false, end + after_second);
            assert(after_first =~= (end + after_first).skip(1));
            assert(after_second =~= (end + after_second).skip(1));
        },
        Block::Loop(body) => {
            let other_body = *second->Loop_0;
            assert(left.skip(1) =~= block_words(*body) + (end + after_first));
            assert(right.skip(1) =~= block_words(other_body) + (end + after_second));
            lemma_block_words_end(*body, end + after_first, other_body, end + after_second);
            assert(after_first =~= (end + after_first).skip(1));
            assert(after_second =~= (end + after_second).skip(1));
        },
    }
}

/// Different block trees have different texts: the textual form of a tree
/// tells the tree.
pub proof fn lemma_block_text_is_distinct(first: Block, second: Block)
    ensures
        block_text(first) == block_text(second) <==> first == second,
{
    if block_text(first) == block_text(second) {
        lemma_lexemes_of_block(first);
        lemma_lexemes_of_block(second);
        assert(block_words(first) + Seq::<Seq<char>>::empty() == block_words(first));
        assert(block_words(second) + Seq::<Seq<char>>::empty() == block_words(second));
        lemma_block_words_end(first, Seq::empty(), second, Seq::empty());
    }
}

/// Different scripts have different texts.
pub proof fn lemma_script_text_is_distinct(first: Block, second: Block)
    ensures
        script_text(first) == script_text(second) <==> first == second,
{
    if script_text(first) == script_text(second) {
        reveal_strlit("begin ");
        reveal_strlit(" end");
        let a = script_text(first);
        let b = script_text(second);
        assert(block_text(first) =~= a.subrange(6, a.len() - 4));
        assert(block_text(second) =~= b.subrange(6, b.len() - 4));
        lemma_block_text_is_distinct(first, second);
    }
}

} // verus!
