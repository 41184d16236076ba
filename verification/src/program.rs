use vstd::prelude::*;
use vstd::string::StringExecFns;

use gcode::{Code, Value};

use crate::block::{BlockView, Block, CodeKind, Command, Word};
use crate::numbers::command_number_overflows;

verus! {

/// `gcode::Program`, held opaque: its blocks are read through the wrappers below.
#[verifier::external_type_specification]
#[verifier::external_body]
pub struct ExProgram(gcode::Program);

/// How the gcode crate reads `source`: its blocks, or, where its parser
/// reports diagnostics, their `Debug` text. A literal value stands in a
/// word as the bit pattern of its binary32 number; other values stand as
/// `None`.
pub uninterp spec fn gcode_blocks(source: Seq<char>) -> Result<Seq<BlockView<u32>>, Seq<char>>;

/// The blocks that a program of the gcode crate holds, in order.
pub uninterp spec fn program_blocks(program: gcode::Program) -> Seq<BlockView<u32>>;

/// `gcode::parse`: parses the whole source; returns the program, or the
/// `Debug` text of the diagnostics when its parser emitted any. Claimed:
/// the outcome, the blocks and the text depend on the source alone. It
/// does not return where a command number overflows its `u32`, so such
/// sources are left out.
#[verifier::external_body]
fn gcode_parse(source: &str) -> (r: Result<gcode::Program, String>)
    requires
        !command_number_overflows(source@),
    ensures
        match r {
            Ok(p) => gcode_blocks(source@) == Ok::<_, Seq<char>>(program_blocks(p)),
            Err(text) => gcode_blocks(source@) == Err::<Seq<BlockView<u32>>, _>(text@),
        },
{
    gcode::parse(source).map_err(|d| format!("{:?}", d))
}

/// The length of `Program::blocks`.
#[verifier::external_body]
fn program_len(program: &gcode::Program) -> (r: usize)
    ensures
        r == program_blocks(*program).len(),
{
    program.blocks.len()
}

/// `Block::word_addresses` of block `i`, each literal as its bit pattern
/// (`f32::to_bits`), a variable as `None`.
#[verifier::external_body]
fn block_word_addresses(program: &gcode::Program, i: usize) -> (r: Vec<Word<u32>>)
    requires
        i < program_blocks(*program).len(),
    ensures
        r@ == program_blocks(*program)[i as int].word_addresses,
{
    program.blocks[i].word_addresses.iter().map(
        |w| Word {
            letter: w.letter,
            value: match &w.value {
                Value::Literal(v) => Some(v.to_bits()),
                _ => None,
            },
        },
    ).collect()
}

/// The length of `Block::codes` of block `i`.
#[verifier::external_body]
fn block_code_count(program: &gcode::Program, i: usize) -> (r: usize)
    requires
        i < program_blocks(*program).len(),
    ensures
        r == program_blocks(*program)[i as int].codes.len(),
{
    program.blocks[i].codes.len()
}

/// Command `j` of block `i`: its letter, `Number::major` and
/// `Number::minor` (0 where there is none).
#[verifier::external_body]
fn block_code_number(program: &gcode::Program, i: usize, j: usize) -> (r: (CodeKind, u32, u32))
    requires
        i < program_blocks(*program).len(),
        j < program_blocks(*program)[i as int].codes.len(),
    ensures
        ({
            let c = program_blocks(*program)[i as int].codes[j as int];
            r == (c.kind, c.major, c.minor)
        }),
{
    let (kind, number) = match &program.blocks[i].codes[j] {
        Code::General(g) => (CodeKind::General, g.number),
        Code::Miscellaneous(m) => (CodeKind::Miscellaneous, m.number),
        Code::ToolChange(t) => (CodeKind::ToolChange, t.number),
        _ => return (CodeKind::Other, 0, 0),
    };
    (kind, number.major(), number.minor().map_or(0, |m| m.get()))
}

/// The arguments of command `j` of block `i`, as in
/// `block_word_addresses` (none for a kind of command it does not know).
#[verifier::external_body]
fn block_code_args(program: &gcode::Program, i: usize, j: usize) -> (r: Vec<Word<u32>>)
    requires
        i < program_blocks(*program).len(),
        j < program_blocks(*program)[i as int].codes.len(),
    ensures
        r@ == program_blocks(*program)[i as int].codes[j as int].args,
{
    let args = match &program.blocks[i].codes[j] {
        Code::General(g) => &g.args,
        Code::Miscellaneous(m) => &m.args,
        Code::ToolChange(t) => &t.args,
        _ => return Vec::new(),
    };
    args.iter().map(
        |a| Word {
            letter: a.letter,
            value: match &a.value {
                Value::Literal(v) => Some(v.to_bits()),
                _ => None,
            },
        },
    ).collect()
}

/// Reads G-code source into blocks with the gcode crate. Fails exactly
/// where the parser reports diagnostics, with "Parse error: " and their
/// `Debug` text. `command_numbers_fit` tells the sources it accepts.
pub fn read_blocks(source: &str) -> (r: Result<Vec<Block<u32>>, String>)
    requires
        !command_number_overflows(source@),
    ensures
        r is Ok <==> gcode_blocks(source@) is Ok,
        r matches Ok(bs) ==> gcode_blocks(source@) == Ok::<_, Seq<char>>(
            bs@.map_values(|b: Block<u32>| b@),
        ),
        r matches Err(m) ==> gcode_blocks(source@) is Err && m@ == "Parse error: "@ + gcode_blocks(
            source@,
        )->Err_0,
{
    let program = match gcode_parse(source) {
        Ok(p) => p,
        Err(text) => {
            let mut message = String::from_str("Parse error: ");
            message.append(text.as_str());
            return Err(message);
        },
    };
    let ghost contents = program_blocks(program);
    let n = program_len(&program);
    let mut blocks: Vec<Block<u32>> = Vec::new();
    let mut i: usize = 0;
    while i < n
        invariant
            0 <= i <= n,
            n == contents.len(),
            contents == program_blocks(program),
            blocks@.len() == i,
            forall|k: int| 0 <= k < i ==> #[trigger] blocks@[k]@ == contents[k],
        decreases n - i,
    {
        let m = block_code_count(&program, i);
        let mut codes: Vec<Command<u32>> = Vec::new();
        let mut j: usize = 0;
        while j < m
            invariant
                0 <= i < n,
                n == contents.len(),
                contents == program_blocks(program),
                0 <= j <= m,
                m == contents[i as int].codes.len(),
                codes@.len() == j,
                forall|k: int| 0 <= k < j ==> #[trigger] codes@[k]@ == contents[i as int].codes[k],
            decreases m - j,
        {
            let (kind, major, minor) = block_code_number(&program, i, j);
            let args = block_code_args(&program, i, j);
            let c = Command { kind, major, minor, args };
            proof {
                assert(c@ == contents[i as int].codes[j as int]);
            }
            codes.push(c);
            j = j + 1;
        }
        let word_addresses = block_word_addresses(&program, i);
        let b = Block { codes, word_addresses };
        proof {
            assert(b@.codes =~= contents[i as int].codes);
            assert(b@ == contents[i as int]);
        }
        blocks.push(b);
        i = i + 1;
    }
    proof {
        assert(blocks@.map_values(|b: Block<u32>| b@) =~= contents);
    }
    Ok(blocks)
}

} // verus!
