use vstd::prelude::*;

verus! {

/// The letter that introduces a command.
#[derive(Clone, Copy, Debug, PartialEq, Eq, Structural)]
pub enum CodeKind {
    /// G: motion and modes.
    General,
    /// M: machine functions.
    Miscellaneous,
    /// T: tool selection.
    ToolChange,
    /// A kind of command this library does not know; it carries nothing.
    Other,
}

/// A letter with its value; `None` where the value is not a literal
/// number (a variable reference).
#[derive(Clone, Copy, Debug)]
pub struct Word<V> {
    pub letter: char,
    pub value: Option<V>,
}

/// A G, M or T command: its number `major.minor` and its arguments.
#[derive(Clone, Debug)]
pub struct Command<V> {
    pub kind: CodeKind,
    pub major: u32,
    pub minor: u32,
    pub args: Vec<Word<V>>,
}

/// One line of a program: its commands and its bare word addresses.
#[derive(Clone, Debug)]
pub struct Block<V> {
    pub codes: Vec<Command<V>>,
    pub word_addresses: Vec<Word<V>>,
}

/// A command as a value.
pub struct CommandView<V> {
    pub kind: CodeKind,
    pub major: u32,
    pub minor: u32,
    pub args: Seq<Word<V>>,
}

/// A block as a value.
pub struct BlockView<V> {
    pub codes: Seq<CommandView<V>>,
    pub word_addresses: Seq<Word<V>>,
}

impl<V> View for Command<V> {
    type V = CommandView<V>;

    open spec fn view(&self) -> CommandView<V> {
        CommandView { kind: self.kind, major: self.major, minor: self.minor, args: self.args@ }
    }
}

impl<V> View for Block<V> {
    type V = BlockView<V>;

    open spec fn view(&self) -> BlockView<V> {
        BlockView {
            codes: self.codes@.map_values(|c: Command<V>| c@),
            word_addresses: self.word_addresses@,
        }
    }
}

/// The last literal value given to each axis letter in a block.
#[derive(Clone, Copy, Debug)]
pub struct MoveTargets<V> {
    pub x: Option<V>,
    pub y: Option<V>,
    pub z: Option<V>,
    pub e: Option<V>,
    pub i: Option<V>,
    pub j: Option<V>,
    pub r: Option<V>,
    pub f: Option<V>,
}

/// The kind of a motion block.
#[derive(Clone, Copy, Debug, PartialEq, Eq, Structural)]
pub enum MoveKind {
    /// G0.
    Rapid,
    /// G1.
    Linear,
    /// G2 (`clockwise`) or G3.
    Arc { clockwise: bool },
}

/// What a block asks of the machine.
#[derive(Clone, Copy, Debug)]
pub enum BlockAction<V> {
    /// A motion to the collected targets.
    Move { kind: MoveKind, targets: MoveTargets<V> },
    /// No motion; the distance mode becomes relative (`Some(true)`, G91)
    /// or absolute (`Some(false)`, G90), or stays (`None`).
    Modes { relative: Option<bool> },
}

/// The command is the G code `major` with no minor part.
pub open spec fn is_g<V>(c: CommandView<V>, major: u32) -> bool {
    c.kind == CodeKind::General && c.major == major && c.minor == 0
}

/// The arguments of the G codes, in order.
pub open spec fn general_args<V>(codes: Seq<CommandView<V>>) -> Seq<Word<V>>
    decreases codes.len(),
{
    if codes.len() == 0 {
        Seq::empty()
    } else {
        let c = codes.last();
        general_args(codes.drop_last()) + if c.kind == CodeKind::General {
            c.args
        } else {
            Seq::empty()
        }
    }
}

/// The words that can set targets: arguments of G codes, then the bare
/// word addresses.
pub open spec fn target_words<V>(b: BlockView<V>) -> Seq<Word<V>> {
    general_args(b.codes) + b.word_addresses
}

/// The value of the last word with `letter` that holds a literal.
pub open spec fn last_value<V>(words: Seq<Word<V>>, letter: char) -> Option<V>
    decreases words.len(),
{
    if words.len() == 0 {
        None
    } else if words.last().letter == letter && words.last().value is Some {
        words.last().value
    } else {
        last_value(words.drop_last(), letter)
    }
}

pub open spec fn targets_of<V>(words: Seq<Word<V>>) -> MoveTargets<V> {
    MoveTargets {
        x: last_value(words, 'X'),
        y: last_value(words, 'Y'),
        z: last_value(words, 'Z'),
        e: last_value(words, 'E'),
        i: last_value(words, 'I'),
        j: last_value(words, 'J'),
        r: last_value(words, 'R'),
        f: last_value(words, 'F'),
    }
}

/// Some command of `codes` is G`major`.
pub open spec fn has_g<V>(codes: Seq<CommandView<V>>, major: u32) -> bool {
    exists|ci: int| 0 <= ci < codes.len() && is_g(#[trigger] codes[ci], major)
}

/// The distance mode the last G90 or G91 of `codes` selects.
pub open spec fn last_distance_mode<V>(codes: Seq<CommandView<V>>) -> Option<bool>
    decreases codes.len(),
{
    if codes.len() == 0 {
        None
    } else if is_g(codes.last(), 90) {
        Some(false)
    } else if is_g(codes.last(), 91) {
        Some(true)
    } else {
        last_distance_mode(codes.drop_last())
    }
}

/// The action of a block: G0 wins over G1, G1 over G2/G3, G2 over G3;
/// a block without any of them only sets the distance mode.
pub open spec fn block_action<V>(b: BlockView<V>) -> BlockAction<V> {
    let codes = b.codes;
    if has_g(codes, 0) || has_g(codes, 1) || has_g(codes, 2) || has_g(codes, 3) {
        BlockAction::Move {
            kind: if has_g(codes, 0) {
                MoveKind::Rapid
            } else if has_g(codes, 1) {
                MoveKind::Linear
            } else {
                MoveKind::Arc { clockwise: has_g(codes, 2) }
            },
            targets: targets_of(target_words(b)),
        }
    } else {
        BlockAction::Modes { relative: last_distance_mode(codes) }
    }
}

/// The targets after word `w`.
pub open spec fn absorb_spec<V>(t: MoveTargets<V>, w: Word<V>) -> MoveTargets<V> {
    if w.value is None {
        t
    } else if w.letter == 'X' {
        MoveTargets { x: w.value, ..t }
    } else if w.letter == 'Y' {
        MoveTargets { y: w.value, ..t }
    } else if w.letter == 'Z' {
        MoveTargets { z: w.value, ..t }
    } else if w.letter == 'E' {
        MoveTargets { e: w.value, ..t }
    } else if w.letter == 'I' {
        MoveTargets { i: w.value, ..t }
    } else if w.letter == 'J' {
        MoveTargets { j: w.value, ..t }
    } else if w.letter == 'R' {
        MoveTargets { r: w.value, ..t }
    } else if w.letter == 'F' {
        MoveTargets { f: w.value, ..t }
    } else {
        t
    }
}

/// The word gives `letter` a literal value.
pub open spec fn literal_of<V>(w: Word<V>, letter: char) -> bool {
    w.letter == letter && w.value is Some
}

/// The letters that set move targets.
pub open spec fn is_axis_letter(c: char) -> bool {
    c == 'X' || c == 'Y' || c == 'Z' || c == 'E' || c == 'I' || c == 'J' || c == 'R' || c == 'F'
}

/// The target that `letter` names.
pub open spec fn target_for<V>(t: MoveTargets<V>, letter: char) -> Option<V> {
    if letter == 'X' {
        t.x
    } else if letter == 'Y' {
        t.y
    } else if letter == 'Z' {
        t.z
    } else if letter == 'E' {
        t.e
    } else if letter == 'I' {
        t.i
    } else if letter == 'J' {
        t.j
    } else if letter == 'R' {
        t.r
    } else if letter == 'F' {
        t.f
    } else {
        None
    }
}

proof fn lemma_last_value_append<V>(a: Seq<Word<V>>, c: Seq<Word<V>>, l: char)
    ensures
        last_value(a + c, l) == if last_value(c, l) is Some {
            last_value(c, l)
        } else {
            last_value(a, l)
        },
    decreases c.len(),
{
    if c.len() == 0 {
        assert(a + c =~= a);
    } else {
        assert((a + c).drop_last() =~= a + c.drop_last());
        lemma_last_value_append(a, c.drop_last(), l);
    }
}

proof fn lemma_last_value_none<V>(ws: Seq<Word<V>>, l: char)
    ensures
        (last_value(ws, l) is None) <==> (forall|k: int|
            0 <= k < ws.len() ==> !literal_of(#[trigger] ws[k], l)),
    decreases ws.len(),
{
    if ws.len() > 0 {
        let d = ws.drop_last();
        lemma_last_value_none(d, l);
        if last_value(ws, l) is None {
            assert forall|k: int| 0 <= k < ws.len() implies !literal_of(#[trigger] ws[k], l) by {
                if k < ws.len() - 1 {
                    assert(d[k] == ws[k]);
                }
            }
        } else if !literal_of(ws.last(), l) {
            let k = choose|k: int| 0 <= k < d.len() && literal_of(#[trigger] d[k], l);
            assert(ws[k] == d[k]);
        }
    }
}

proof fn lemma_last_value_at<V>(ws: Seq<Word<V>>, l: char, k: int)
    requires
        0 <= k < ws.len(),
        literal_of(ws[k], l),
        forall|j: int| k < j < ws.len() ==> !literal_of(#[trigger] ws[j], l),
    ensures
        last_value(ws, l) == ws[k].value,
    decreases ws.len(),
{
    if k < ws.len() - 1 {
        let d = ws.drop_last();
        assert(!literal_of(ws[ws.len() - 1], l));
        assert forall|j: int| k < j < d.len() implies !literal_of(#[trigger] d[j], l) by {
            assert(d[j] == ws[j]);
        }
        lemma_last_value_at(d, l, k);
    }
}

proof fn lemma_general_args_append<V>(x: Seq<CommandView<V>>, y: Seq<CommandView<V>>)
    ensures
        general_args(x + y) == general_args(x) + general_args(y),
    decreases y.len(),
{
    if y.len() == 0 {
        assert(x + y =~= x);
        assert(general_args(x) + general_args(y) =~= general_args(x));
    } else {
        assert((x + y).drop_last() =~= x + y.drop_last());
        lemma_general_args_append(x, y.drop_last());
        assert((x + y).last() == y.last());
        let tail = if y.last().kind == CodeKind::General {
            y.last().args
        } else {
            Seq::empty()
        };
        assert(general_args(x) + general_args(y.drop_last()) + tail =~= general_args(x) + (
        general_args(y.drop_last()) + tail));
    }
}

/// The arguments of G command `ci` stand in the sequence of all G
/// arguments after those of the commands before it.
proof fn lemma_general_args_split<V>(codes: Seq<CommandView<V>>, ci: int)
    requires
        0 <= ci < codes.len(),
        codes[ci].kind == CodeKind::General,
    ensures
        general_args(codes) == general_args(codes.take(ci)) + codes[ci].args + general_args(
            codes.skip(ci + 1),
        ),
{
    let one = seq![codes[ci]];
    assert(codes =~= codes.take(ci) + one + codes.skip(ci + 1));
    lemma_general_args_append(codes.take(ci) + one, codes.skip(ci + 1));
    lemma_general_args_append(codes.take(ci), one);
    assert(one.drop_last() =~= Seq::<CommandView<V>>::empty());
    assert(one.last() == codes[ci]);
    assert(general_args(one.drop_last()) =~= Seq::<Word<V>>::empty());
    assert(general_args(one) == general_args(one.drop_last()) + codes[ci].args);
    assert(general_args(one) =~= codes[ci].args);
}

/// Every word of the G arguments is an argument of some G command.
proof fn lemma_general_args_member<V>(codes: Seq<CommandView<V>>, p: int)
    requires
        0 <= p < general_args(codes).len(),
    ensures
        exists|ci: int, ai: int|
            #![trigger codes[ci].args[ai]]
            0 <= ci < codes.len() && codes[ci].kind == CodeKind::General && 0 <= ai
                < codes[ci].args.len() && general_args(codes)[p] == codes[ci].args[ai],
    decreases codes.len(),
{
    let d = codes.drop_last();
    let n = general_args(d).len();
    if p < n {
        lemma_general_args_member(d, p);
        let (ci, ai) = choose|ci: int, ai: int|
            #![trigger d[ci].args[ai]]
            0 <= ci < d.len() && d[ci].kind == CodeKind::General && 0 <= ai < d[ci].args.len()
                && general_args(d)[p] == d[ci].args[ai];
        assert(codes[ci] == d[ci]);
        assert(codes[ci].args[ai] == d[ci].args[ai]);
    } else {
        let ci = codes.len() - 1;
        assert(codes.last().kind == CodeKind::General);
        assert(codes[ci].args[p - n] == general_args(codes)[p]);
    }
}

/// A target of a motion block is set exactly when some G command's
/// arguments or the bare word addresses give its letter a literal value.
pub proof fn lemma_target_set_iff_given<V>(b: BlockView<V>, letter: char)
    requires
        is_axis_letter(letter),
        block_action(b) is Move,
    ensures
        (target_for(block_action(b)->targets, letter) is Some) <==> ((exists|ci: int, ai: int|
            #![trigger b.codes[ci].args[ai]]
            0 <= ci < b.codes.len() && b.codes[ci].kind == CodeKind::General && 0 <= ai
                < b.codes[ci].args.len() && literal_of(b.codes[ci].args[ai], letter)) || (exists|
            k: int,
        |
            0 <= k < b.word_addresses.len() && literal_of(#[trigger] b.word_addresses[k], letter))),
{
    let ga = general_args(b.codes);
    let words = target_words(b);
    lemma_last_value_none(words, letter);
    assert(target_for(block_action(b)->targets, letter) == last_value(words, letter));
    if exists|ci: int, ai: int|
        #![trigger b.codes[ci].args[ai]]
        0 <= ci < b.codes.len() && b.codes[ci].kind == CodeKind::General && 0 <= ai
            < b.codes[ci].args.len() && literal_of(b.codes[ci].args[ai], letter) {
        let (ci, ai) = choose|ci: int, ai: int|
            #![trigger b.codes[ci].args[ai]]
            0 <= ci < b.codes.len() && b.codes[ci].kind == CodeKind::General && 0 <= ai
                < b.codes[ci].args.len() && literal_of(b.codes[ci].args[ai], letter);
        lemma_general_args_split(b.codes, ci);
        let q = general_args(b.codes.take(ci)).len() + ai;
        assert(words[q] == b.codes[ci].args[ai]);
    }
    if exists|k: int|
        0 <= k < b.word_addresses.len() && literal_of(#[trigger] b.word_addresses[k], letter) {
        let k = choose|k: int|
            0 <= k < b.word_addresses.len() && literal_of(#[trigger] b.word_addresses[k], letter);
        assert(words[ga.len() + k] == b.word_addresses[k]);
    }
    if last_value(words, letter) is Some {
        let p = choose|p: int| 0 <= p < words.len() && literal_of(#[trigger] words[p], letter);
        if p < ga.len() {
            lemma_general_args_member(b.codes, p);
            assert(words[p] == ga[p]);
        } else {
            assert(words[p] == b.word_addresses[p - ga.len()]);
        }
    }
}

/// The last literal value wins: a literal argument of a G command that no
/// later argument of a G command and no word address overrides is the
/// target of its letter.
pub proof fn lemma_last_g_argument_wins<V>(b: BlockView<V>, ci: int, ai: int)
    requires
        block_action(b) is Move,
        0 <= ci < b.codes.len(),
        b.codes[ci].kind == CodeKind::General,
        0 <= ai < b.codes[ci].args.len(),
        is_axis_letter(b.codes[ci].args[ai].letter),
        b.codes[ci].args[ai].value is Some,
        forall|aj: int|
            ai < aj < b.codes[ci].args.len() ==> !literal_of(
                #[trigger] b.codes[ci].args[aj],
                b.codes[ci].args[ai].letter,
            ),
        forall|cj: int, aj: int|
            ci < cj < b.codes.len() && b.codes[cj].kind == CodeKind::General && 0 <= aj
                < b.codes[cj].args.len() ==> !literal_of(
                #[trigger] b.codes[cj].args[aj],
                b.codes[ci].args[ai].letter,
            ),
        forall|k: int|
            0 <= k < b.word_addresses.len() ==> !literal_of(
                #[trigger] b.word_addresses[k],
                b.codes[ci].args[ai].letter,
            ),
    ensures
        target_for(block_action(b)->targets, b.codes[ci].args[ai].letter)
            == b.codes[ci].args[ai].value,
{
    let l = b.codes[ci].args[ai].letter;
    let words = target_words(b);
    let rest = b.codes.skip(ci + 1);
    lemma_general_args_split(b.codes, ci);
    let a_len = general_args(b.codes.take(ci)).len();
    let args = b.codes[ci].args;
    let c_len = general_args(rest).len();
    let q = a_len + ai;
    assert(words[q] == args[ai]);
    assert forall|j: int| q < j < words.len() implies !literal_of(#[trigger] words[j], l) by {
        if j < a_len + args.len() {
            assert(words[j] == args[j - a_len]);
        } else if j < a_len + args.len() + c_len {
            let p = j - a_len - args.len();
            assert(words[j] == general_args(rest)[p]);
            lemma_general_args_member(rest, p);
            let (cj, aj) = choose|cj: int, aj: int|
                #![trigger rest[cj].args[aj]]
                0 <= cj < rest.len() && rest[cj].kind == CodeKind::General && 0 <= aj
                    < rest[cj].args.len() && general_args(rest)[p] == rest[cj].args[aj];
            assert(rest[cj] == b.codes[ci + 1 + cj]);
            assert(b.codes[ci + 1 + cj].args[aj] == rest[cj].args[aj]);
        } else {
            assert(words[j] == b.word_addresses[j - a_len - args.len() - c_len]);
        }
    }
    lemma_last_value_at(words, l, q);
}

/// A literal word address that no later word address overrides is the
/// target of its letter, whatever the G commands give.
pub proof fn lemma_last_word_address_wins<V>(b: BlockView<V>, k: int)
    requires
        block_action(b) is Move,
        0 <= k < b.word_addresses.len(),
        is_axis_letter(b.word_addresses[k].letter),
        b.word_addresses[k].value is Some,
        forall|j: int|
            k < j < b.word_addresses.len() ==> !literal_of(
                #[trigger] b.word_addresses[j],
                b.word_addresses[k].letter,
            ),
    ensures
        target_for(block_action(b)->targets, b.word_addresses[k].letter)
            == b.word_addresses[k].value,
{
    let l = b.word_addresses[k].letter;
    lemma_last_value_at(b.word_addresses, l, k);
    lemma_last_value_append(general_args(b.codes), b.word_addresses, l);
}

/// The command is G`major` with no minor part, by its fields.
pub open spec fn names_g<V>(c: CommandView<V>, major: u32) -> bool {
    &&& c.kind == CodeKind::General
    &&& c.major == major
    &&& c.minor == 0
}

/// A block moves exactly when it holds G0, G1, G2 or G3; then G0 makes it
/// rapid, else G1 linear, else G2 a clockwise arc, else G3 a
/// counter-clockwise arc, wherever in the block they stand.
pub proof fn lemma_motion_precedence<V>(b: BlockView<V>)
    ensures
        (block_action(b) is Move) <==> (exists|ci: int|
            0 <= ci < b.codes.len() && (names_g(#[trigger] b.codes[ci], 0) || names_g(
                b.codes[ci],
                1,
            ) || names_g(b.codes[ci], 2) || names_g(b.codes[ci], 3))),
        (exists|ci: int| 0 <= ci < b.codes.len() && names_g(#[trigger] b.codes[ci], 0))
            ==> block_action(b)->kind == MoveKind::Rapid,
        (forall|ci: int| 0 <= ci < b.codes.len() ==> !names_g(#[trigger] b.codes[ci], 0)) && (
        exists|ci: int| 0 <= ci < b.codes.len() && names_g(#[trigger] b.codes[ci], 1))
            ==> block_action(b)->kind == MoveKind::Linear,
        (forall|ci: int|
            0 <= ci < b.codes.len() ==> !names_g(#[trigger] b.codes[ci], 0) && !names_g(
                b.codes[ci],
                1,
            )) && (exists|ci: int| 0 <= ci < b.codes.len() && names_g(#[trigger] b.codes[ci], 2))
            ==> block_action(b)->kind == (MoveKind::Arc { clockwise: true }),
        (forall|ci: int|
            0 <= ci < b.codes.len() ==> !names_g(#[trigger] b.codes[ci], 0) && !names_g(
                b.codes[ci],
                1,
            ) && !names_g(b.codes[ci], 2)) && (exists|ci: int|
            0 <= ci < b.codes.len() && names_g(#[trigger] b.codes[ci], 3))
            ==> block_action(b)->kind == (MoveKind::Arc { clockwise: false }),
{
    if block_action(b) is Move {
        if has_g(b.codes, 0) {
            let ci = choose|ci: int| 0 <= ci < b.codes.len() && is_g(#[trigger] b.codes[ci], 0);
            assert(names_g(b.codes[ci], 0));
        } else if has_g(b.codes, 1) {
            let ci = choose|ci: int| 0 <= ci < b.codes.len() && is_g(#[trigger] b.codes[ci], 1);
            assert(names_g(b.codes[ci], 1));
        } else if has_g(b.codes, 2) {
            let ci = choose|ci: int| 0 <= ci < b.codes.len() && is_g(#[trigger] b.codes[ci], 2);
            assert(names_g(b.codes[ci], 2));
        } else {
            let ci = choose|ci: int| 0 <= ci < b.codes.len() && is_g(#[trigger] b.codes[ci], 3);
            assert(names_g(b.codes[ci], 3));
        }
    }
    if exists|ci: int|
        0 <= ci < b.codes.len() && (names_g(#[trigger] b.codes[ci], 0) || names_g(
            b.codes[ci],
            1,
        ) || names_g(b.codes[ci], 2) || names_g(b.codes[ci], 3)) {
        let ci = choose|ci: int|
            0 <= ci < b.codes.len() && (names_g(#[trigger] b.codes[ci], 0) || names_g(
                b.codes[ci],
                1,
            ) || names_g(b.codes[ci], 2) || names_g(b.codes[ci], 3));
        assert(is_g(b.codes[ci], 0) || is_g(b.codes[ci], 1) || is_g(b.codes[ci], 2) || is_g(
            b.codes[ci],
            3,
        ));
    }
    if exists|ci: int| 0 <= ci < b.codes.len() && names_g(#[trigger] b.codes[ci], 0) {
        let ci = choose|ci: int| 0 <= ci < b.codes.len() && names_g(#[trigger] b.codes[ci], 0);
        assert(is_g(b.codes[ci], 0));
    }
    if exists|ci: int| 0 <= ci < b.codes.len() && names_g(#[trigger] b.codes[ci], 1) {
        let ci = choose|ci: int| 0 <= ci < b.codes.len() && names_g(#[trigger] b.codes[ci], 1);
        assert(is_g(b.codes[ci], 1));
    }
    if exists|ci: int| 0 <= ci < b.codes.len() && names_g(#[trigger] b.codes[ci], 2) {
        let ci = choose|ci: int| 0 <= ci < b.codes.len() && names_g(#[trigger] b.codes[ci], 2);
        assert(is_g(b.codes[ci], 2));
    }
    if exists|ci: int| 0 <= ci < b.codes.len() && names_g(#[trigger] b.codes[ci], 3) {
        let ci = choose|ci: int| 0 <= ci < b.codes.len() && names_g(#[trigger] b.codes[ci], 3);
        assert(is_g(b.codes[ci], 3));
    }
}

/// Without motion, the last G90 or G91 of a block sets the distance mode
/// (G91 relative, G90 absolute), whatever came before it.
pub proof fn lemma_last_distance_code_wins<V>(b: BlockView<V>, ci: int)
    requires
        block_action(b) is Modes,
        0 <= ci < b.codes.len(),
        names_g(b.codes[ci], 90) || names_g(b.codes[ci], 91),
        forall|cj: int|
            ci < cj < b.codes.len() ==> !names_g(#[trigger] b.codes[cj], 90) && !names_g(
                b.codes[cj],
                91,
            ),
    ensures
        block_action(b)->relative == Some(b.codes[ci].major == 91),
{
    lemma_last_distance_at(b.codes, ci);
}

/// A block without motion and without G90 or G91 leaves the distance mode.
pub proof fn lemma_no_distance_code_keeps_mode<V>(b: BlockView<V>)
    requires
        block_action(b) is Modes,
        forall|ci: int|
            0 <= ci < b.codes.len() ==> !names_g(#[trigger] b.codes[ci], 90) && !names_g(
                b.codes[ci],
                91,
            ),
    ensures
        block_action(b)->relative is None,
    decreases b.codes.len(),
{
    if b.codes.len() > 0 {
        let d = BlockView { codes: b.codes.drop_last(), word_addresses: b.word_addresses };
        assert(!names_g(b.codes[b.codes.len() - 1], 90));
        assert(!names_g(b.codes[b.codes.len() - 1], 91));
        assert forall|ci: int| 0 <= ci < d.codes.len() implies !names_g(
            #[trigger] d.codes[ci],
            90,
        ) && !names_g(d.codes[ci], 91) by {
            assert(d.codes[ci] == b.codes[ci]);
        }
        assert forall|m: u32| has_g(d.codes, m) implies has_g(b.codes, m) by {
            let ci = choose|ci: int| 0 <= ci < d.codes.len() && is_g(#[trigger] d.codes[ci], m);
            assert(b.codes[ci] == d.codes[ci]);
        }
        lemma_no_distance_code_keeps_mode(d);
    }
}

proof fn lemma_last_distance_at<V>(codes: Seq<CommandView<V>>, ci: int)
    requires
        0 <= ci < codes.len(),
        names_g(codes[ci], 90) || names_g(codes[ci], 91),
        forall|cj: int|
            ci < cj < codes.len() ==> !names_g(#[trigger] codes[cj], 90) && !names_g(
                codes[cj],
                91,
            ),
    ensures
        last_distance_mode(codes) == Some(codes[ci].major == 91),
    decreases codes.len(),
{
    if ci < codes.len() - 1 {
        let d = codes.drop_last();
        assert(!names_g(codes[codes.len() - 1], 90));
        assert(!names_g(codes[codes.len() - 1], 91));
        assert forall|cj: int| ci < cj < d.len() implies !names_g(#[trigger] d[cj], 90)
            && !names_g(d[cj], 91) by {
            assert(d[cj] == codes[cj]);
        }
        assert(d[ci] == codes[ci]);
        lemma_last_distance_at(d, ci);
    }
}

proof fn lemma_targets_push<V>(words: Seq<Word<V>>, w: Word<V>)
    ensures
        targets_of(words.push(w)) == absorb_spec(targets_of(words), w),
{
    assert(words.push(w).drop_last() =~= words);
}

proof fn lemma_general_args_step<V>(codes: Seq<CommandView<V>>, ci: int)
    requires
        0 <= ci < codes.len(),
    ensures
        general_args(codes.take(ci + 1)) == general_args(codes.take(ci)) + if codes[ci].kind
            == CodeKind::General {
            codes[ci].args
        } else {
            Seq::empty()
        },
{
    assert(codes.take(ci + 1).drop_last() =~= codes.take(ci));
}

proof fn lemma_distance_mode_step<V>(codes: Seq<CommandView<V>>, ci: int)
    requires
        0 <= ci < codes.len(),
    ensures
        last_distance_mode(codes.take(ci + 1)) == if is_g(codes[ci], 90) {
            Some(false)
        } else if is_g(codes[ci], 91) {
            Some(true)
        } else {
            last_distance_mode(codes.take(ci))
        },
{
    assert(codes.take(ci + 1).drop_last() =~= codes.take(ci));
}

fn absorb<V: Copy>(t: &mut MoveTargets<V>, w: &Word<V>)
    ensures
        *final(t) == absorb_spec(*old(t), *w),
{
    match w.value {
        None => {},
        Some(v) => {
            if w.letter == 'X' {
                t.x = Some(v);
            } else if w.letter == 'Y' {
                t.y = Some(v);
            } else if w.letter == 'Z' {
                t.z = Some(v);
            } else if w.letter == 'E' {
                t.e = Some(v);
            } else if w.letter == 'I' {
                t.i = Some(v);
            } else if w.letter == 'J' {
                t.j = Some(v);
            } else if w.letter == 'R' {
                t.r = Some(v);
            } else if w.letter == 'F' {
                t.f = Some(v);
            }
        },
    }
}

fn absorb_all<V: Copy>(t: &mut MoveTargets<V>, words: &Vec<Word<V>>, Ghost(seen): Ghost<
    Seq<Word<V>>,
>)
    requires
        *old(t) == targets_of(seen),
    ensures
        *final(t) == targets_of(seen + words@),
{
    let mut k: usize = 0;
    while k < words.len()
        invariant
            0 <= k <= words@.len(),
            *t == targets_of(seen + words@.take(k as int)),
        decreases words@.len() - k,
    {
        proof {
            lemma_targets_push(seen + words@.take(k as int), words@[k as int]);
            assert((seen + words@.take(k as int)).push(words@[k as int]) =~= seen + words@.take(
                k + 1,
            ));
        }
        absorb(t, &words[k]);
        k = k + 1;
    }
    proof {
        assert(words@.take(words@.len() as int) =~= words@);
    }
}

/// Reads one block: which motion it asks for and the last literal value
/// of each axis letter, or, without a motion, the distance mode it selects.
pub fn interpret_block<V: Copy>(block: &Block<V>) -> (r: BlockAction<V>)
    ensures
        r == block_action(block@),
{
    let mut t = MoveTargets {
        x: None,
        y: None,
        z: None,
        e: None,
        i: None,
        j: None,
        r: None,
        f: None,
    };
    let mut has_g00 = false;
    let mut has_g01 = false;
    let mut has_g02 = false;
    let mut has_g03 = false;
    let mut relative: Option<bool> = None;
    let ghost codes = block@.codes;
    proof {
        assert(targets_of(Seq::<Word<V>>::empty()) == t);
        assert(codes.take(0) =~= Seq::<CommandView<V>>::empty());
    }
    let mut ci: usize = 0;
    while ci < block.codes.len()
        invariant
            codes == block@.codes,
            codes.len() == block.codes@.len(),
            0 <= ci <= codes.len(),
            t == targets_of(general_args(codes.take(ci as int))),
            has_g00 == has_g(codes.take(ci as int), 0),
            has_g01 == has_g(codes.take(ci as int), 1),
            has_g02 == has_g(codes.take(ci as int), 2),
            has_g03 == has_g(codes.take(ci as int), 3),
            relative == last_distance_mode(codes.take(ci as int)),
        decreases codes.len() - ci,
    {
        let c = &block.codes[ci];
        proof {
            assert(codes[ci as int] == c@);
            lemma_general_args_step(codes, ci as int);
            lemma_distance_mode_step(codes, ci as int);
            assert(codes.take(ci + 1)[ci as int] == codes[ci as int]);
            assert forall|m: u32| #[trigger]
                has_g(codes.take(ci + 1), m) == (has_g(codes.take(ci as int), m) || is_g(
                    codes[ci as int],
                    m,
                )) by {
                if has_g(codes.take(ci + 1), m) {
                    let w = choose|w: int|
                        0 <= w < codes.take(ci + 1).len() && is_g(
                            #[trigger] codes.take(ci + 1)[w],
                            m,
                        );
                    if w < ci {
                        assert(codes.take(ci as int)[w] == codes[w]);
                    }
                }
                if has_g(codes.take(ci as int), m) {
                    let w = choose|w: int|
                        0 <= w < codes.take(ci as int).len() && is_g(
                            #[trigger] codes.take(ci as int)[w],
                            m,
                        );
                    assert(codes.take(ci + 1)[w] == codes[w]);
                }
            }
        }
        match c.kind {
            CodeKind::General => {
                absorb_all(&mut t, &c.args, Ghost(general_args(codes.take(ci as int))));
                if c.minor == 0 {
                    if c.major == 0 {
                        has_g00 = true;
                    } else if c.major == 1 {
                        has_g01 = true;
                    } else if c.major == 2 {
                        has_g02 = true;
                    } else if c.major == 3 {
                        has_g03 = true;
                    } else if c.major == 90 {
                        relative = Some(false);
                    } else if c.major == 91 {
                        relative = Some(true);
                    }
                }
            },
            _ => {
                proof {
                    assert(general_args(codes.take(ci as int)) + Seq::<Word<V>>::empty()
                        =~= general_args(codes.take(ci as int)));
                }
            },
        }
        ci = ci + 1;
    }
    proof {
        assert(codes.take(codes.len() as int) =~= codes);
    }
    absorb_all(&mut t, &block.word_addresses, Ghost(general_args(codes)));
    if has_g00 || has_g01 || has_g02 || has_g03 {
        let kind = if has_g00 {
            MoveKind::Rapid
        } else if has_g01 {
            MoveKind::Linear
        } else {
            MoveKind::Arc { clockwise: has_g02 }
        };
        BlockAction::Move { kind, targets: t }
    } else {
        BlockAction::Modes { relative }
    }
}

} // verus!
