//! The texts of the grammar, written out: what a machine description looks
//! like as a sequence of tokens, and what it means.
//!
//! The parser is stated as functions that read tokens. Here the same grammar
//! is stated the other way round, from a description to its tokens, and the
//! two are shown to agree: every description is read as what it means.

use vstd::prelude::*;
use crate::error::GrammarError;
use crate::grammar::{
    complete, expand, expect_name, initial_states_keyword, is_name_at, kind_at, parse_block,
    parse_blocks, parse_initial_states, parse_machine, parse_machines, parse_names, parse_rule,
    parse_rules, Input,
};
use crate::compile::{compiled, models_of};
use crate::error::CompileError;
use crate::grammar::{input_of, machines_of_text};
use crate::lexer::{tokens_of, KindView, TokenView};
use crate::model::ModelView;
use crate::machine::MachineView;
use crate::transition::TransitionView;

verus! {

/// A list of names as it is written: the names, separated by commas, and
/// perhaps a comma behind the last.
pub struct NamesSyntax {
    pub names: Seq<Seq<char>>,
    pub trailing_comma: bool,
}

/// A rule as it is written: the sources, `=>`, the target.
pub struct RuleSyntax {
    pub sources: NamesSyntax,
    pub target: Seq<char>,
}

/// The block of an event as it is written: the event and, in braces, its
/// rules.
pub struct BlockSyntax {
    pub event: Seq<char>,
    pub rules: Seq<RuleSyntax>,
}

/// A machine as it is written: its name and, in braces, the block of the
/// initial states and the blocks of the events.
pub struct MachineSyntax {
    pub name: Seq<char>,
    pub initial_states: NamesSyntax,
    pub blocks: Seq<BlockSyntax>,
}

/// A list of names holds at least one name.
pub open spec fn names_well_formed(names: NamesSyntax) -> bool {
    names.names.len() > 0
}

/// A rule has at least one source.
pub open spec fn rule_well_formed(rule: RuleSyntax) -> bool {
    names_well_formed(rule.sources)
}

/// Every rule of the list has at least one source.
pub open spec fn rules_well_formed(rules: Seq<RuleSyntax>) -> bool {
    forall|i: int| 0 <= i < rules.len() ==> rule_well_formed(#[trigger] rules[i])
}

/// A block has at least one rule, and each rule at least one source.
pub open spec fn block_well_formed(block: BlockSyntax) -> bool {
    block.rules.len() > 0 && rules_well_formed(block.rules)
}

/// Every block of the list is well formed.
pub open spec fn blocks_well_formed(blocks: Seq<BlockSyntax>) -> bool {
    forall|i: int| 0 <= i < blocks.len() ==> block_well_formed(#[trigger] blocks[i])
}

/// A machine has at least one initial state, and its blocks are well formed.
pub open spec fn machine_well_formed(machine: MachineSyntax) -> bool {
    names_well_formed(machine.initial_states) && blocks_well_formed(machine.blocks)
}

/// Every machine of the list is well formed.
pub open spec fn machines_well_formed(machines: Seq<MachineSyntax>) -> bool {
    forall|i: int| 0 <= i < machines.len() ==> machine_well_formed(#[trigger] machines[i])
}

/// The tokens of names separated by commas.
pub open spec fn name_list_kinds(names: Seq<Seq<char>>) -> Seq<KindView>
    decreases names.len(),
{
    if names.len() == 0 {
        Seq::empty()
    } else if names.len() == 1 {
        seq![KindView::Ident(names[0])]
    } else {
        seq![KindView::Ident(names[0]), KindView::Comma] + name_list_kinds(names.drop_first())
    }
}

/// The tokens of a list of names.
pub open spec fn names_kinds(names: NamesSyntax) -> Seq<KindView> {
    if names.trailing_comma {
        name_list_kinds(names.names).push(KindView::Comma)
    } else {
        name_list_kinds(names.names)
    }
}

/// The tokens of a rule.
pub open spec fn rule_kinds(rule: RuleSyntax) -> Seq<KindView> {
    names_kinds(rule.sources) + seq![KindView::Arrow, KindView::Ident(rule.target)]
}

/// The tokens of rules that follow each other.
pub open spec fn rules_kinds(rules: Seq<RuleSyntax>) -> Seq<KindView>
    decreases rules.len(),
{
    if rules.len() == 0 {
        Seq::empty()
    } else {
        rule_kinds(rules[0]) + rules_kinds(rules.drop_first())
    }
}

/// The tokens of the block of an event.
pub open spec fn block_kinds(block: BlockSyntax) -> Seq<KindView> {
    seq![KindView::Ident(block.event), KindView::OpenBrace] + rules_kinds(block.rules).push(
        KindView::CloseBrace,
    )
}

/// The tokens of blocks that follow each other.
pub open spec fn blocks_kinds(blocks: Seq<BlockSyntax>) -> Seq<KindView>
    decreases blocks.len(),
{
    if blocks.len() == 0 {
        Seq::empty()
    } else {
        block_kinds(blocks[0]) + blocks_kinds(blocks.drop_first())
    }
}

/// The tokens of the block of the initial states.
pub open spec fn initial_states_kinds(names: NamesSyntax) -> Seq<KindView> {
    seq![KindView::Ident(initial_states_keyword()), KindView::OpenBrace] + names_kinds(names).push(
        KindView::CloseBrace,
    )
}

/// The tokens of a machine.
pub open spec fn machine_kinds(machine: MachineSyntax) -> Seq<KindView> {
    seq![KindView::Ident(machine.name), KindView::OpenBrace] + initial_states_kinds(
        machine.initial_states,
    ) + blocks_kinds(machine.blocks).push(KindView::CloseBrace)
}

/// The tokens of machines that follow each other.
pub open spec fn machines_kinds(machines: Seq<MachineSyntax>) -> Seq<KindView>
    decreases machines.len(),
{
    if machines.len() == 0 {
        Seq::empty()
    } else {
        machine_kinds(machines[0]) + machines_kinds(machines.drop_first())
    }
}

/// The transitions that the rules of the block of `event` declare: those of
/// the first rule, then those of the second, and so on.
pub open spec fn rules_meaning(event: Seq<char>, rules: Seq<RuleSyntax>) -> Seq<TransitionView>
    decreases rules.len(),
{
    if rules.len() == 0 {
        Seq::empty()
    } else {
        expand(event, rules[0].sources.names, rules[0].target) + rules_meaning(
            event,
            rules.drop_first(),
        )
    }
}

/// The transitions that the blocks declare: those of the first block, then
/// those of the second, and so on.
pub open spec fn blocks_meaning(blocks: Seq<BlockSyntax>) -> Seq<TransitionView>
    decreases blocks.len(),
{
    if blocks.len() == 0 {
        Seq::empty()
    } else {
        rules_meaning(blocks[0].event, blocks[0].rules) + blocks_meaning(blocks.drop_first())
    }
}

/// The machine that is declared.
pub open spec fn machine_meaning(machine: MachineSyntax) -> MachineView {
    MachineView {
        name: machine.name,
        initial_states: machine.initial_states.names,
        transitions: blocks_meaning(machine.blocks),
    }
}

/// The machines that are declared.
pub open spec fn machines_meaning(machines: Seq<MachineSyntax>) -> Seq<MachineView> {
    machines.map_values(|m: MachineSyntax| machine_meaning(m))
}

/// Whether tokens of the given kinds stand in the input from `pos` on.
pub open spec fn stands_at(input: Input, pos: int, kinds: Seq<KindView>) -> bool {
    &&& 0 <= pos
    &&& pos + kinds.len() <= input.tokens.len()
    &&& forall|k: int|
        0 <= k < kinds.len() ==> kind_at(input, pos + k) == Some(#[trigger] kinds[k])
}

/// Two runs of tokens stand one behind the other where their concatenation
/// stands.
pub proof fn lemma_stands_at_split(input: Input, pos: int, a: Seq<KindView>, b: Seq<KindView>)
    ensures
        stands_at(input, pos, a + b) <==> stands_at(input, pos, a) && stands_at(
            input,
            pos + a.len(),
            b,
        ),
{
    let ab = a + b;
    if stands_at(input, pos, ab) {
        assert forall|k: int| 0 <= k < a.len() implies kind_at(input, pos + k) == Some(
            #[trigger] a[k],
        ) by {
            assert(ab[k] == a[k]);
        }
        assert forall|k: int| 0 <= k < b.len() implies kind_at(input, pos + a.len() + k) == Some(
            #[trigger] b[k],
        ) by {
            assert(ab[a.len() + k] == b[k]);
        }
    }
    if stands_at(input, pos, a) && stands_at(input, pos + a.len(), b) {
        assert forall|k: int| 0 <= k < ab.len() implies kind_at(input, pos + k) == Some(
            #[trigger] ab[k],
        ) by {
            if k < a.len() {
                assert(ab[k] == a[k]);
            } else {
                assert(ab[k] == b[k - a.len()]);
                assert(pos + k == pos + a.len() + (k - a.len()));
            }
        }
    }
}

/// The tokens of a list of names begin with a name.
pub proof fn lemma_name_list_kinds_first(names: Seq<Seq<char>>)
    requires
        names.len() > 0,
    ensures
        name_list_kinds(names).len() > 0,
        name_list_kinds(names)[0] == KindView::Ident(names[0]),
{
}

/// A list of names is read as its names, provided that neither a comma nor a
/// name follows it.
pub proof fn lemma_names_read(input: Input, pos: int, names: NamesSyntax, found: Seq<Seq<char>>)
    requires
        names_well_formed(names),
        stands_at(input, pos, names_kinds(names)),
        kind_at(input, pos + names_kinds(names).len()) != Some(KindView::Comma),
        !is_name_at(input, pos + names_kinds(names).len()),
    ensures
        parse_names(input, pos, found) == Ok::<(Seq<Seq<char>>, int), GrammarError>(
            (found + names.names, pos + names_kinds(names).len()),
        ),
    decreases names.names.len(),
{
    let list = names.names;
    let kinds = names_kinds(names);
    assert(kinds[0] == KindView::Ident(list[0]));
    assert(kind_at(input, pos + 0) == Some(kinds[0]));
    if list.len() == 1 {
        assert(found.push(list[0]) =~= found + list);
        if names.trailing_comma {
            assert(kinds[1] == KindView::Comma);
            assert(kind_at(input, pos + 1) == Some(kinds[1]));
        }
    } else {
        let rest = NamesSyntax { names: list.drop_first(), trailing_comma: names.trailing_comma };
        let head = seq![KindView::Ident(list[0]), KindView::Comma];
        assert(kinds =~= head + names_kinds(rest));
        lemma_stands_at_split(input, pos, head, names_kinds(rest));
        assert(kinds[1] == KindView::Comma);
        assert(kind_at(input, pos + 1) == Some(kinds[1]));
        lemma_name_list_kinds_first(rest.names);
        assert(names_kinds(rest)[0] == KindView::Ident(rest.names[0]));
        assert(kind_at(input, pos + 2 + 0) == Some(names_kinds(rest)[0]));
        lemma_names_read(input, pos + 2, rest, found.push(list[0]));
        assert(found.push(list[0]) + rest.names =~= found + list);
    }
}

/// The tokens of a rule begin with a name.
pub proof fn lemma_rule_kinds_first(rule: RuleSyntax)
    requires
        rule_well_formed(rule),
    ensures
        rule_kinds(rule).len() > 0,
        rule_kinds(rule)[0] is Ident,
{
    lemma_name_list_kinds_first(rule.sources.names);
    assert(names_kinds(rule.sources)[0] == name_list_kinds(rule.sources.names)[0]);
}

/// A rule is read as one transition for each of its sources.
pub proof fn lemma_rule_read(input: Input, pos: int, event: Seq<char>, rule: RuleSyntax)
    requires
        rule_well_formed(rule),
        stands_at(input, pos, rule_kinds(rule)),
    ensures
        parse_rule(input, pos, event) == Ok::<(Seq<TransitionView>, int), GrammarError>(
            (expand(event, rule.sources.names, rule.target), pos + rule_kinds(rule).len()),
        ),
{
    let sources = names_kinds(rule.sources);
    let tail = seq![KindView::Arrow, KindView::Ident(rule.target)];
    lemma_stands_at_split(input, pos, sources, tail);
    let arrow = pos + sources.len();
    assert(kind_at(input, arrow + 0) == Some(tail[0]));
    assert(kind_at(input, arrow + 1) == Some(tail[1]));
    lemma_names_read(input, pos, rule.sources, Seq::empty());
    assert(Seq::<Seq<char>>::empty() + rule.sources.names =~= rule.sources.names);
}

/// Rules that follow each other are read as their transitions, in the order
/// of the rules, provided that no name follows the last rule.
pub proof fn lemma_rules_read(
    input: Input,
    pos: int,
    event: Seq<char>,
    rules: Seq<RuleSyntax>,
    found: Seq<TransitionView>,
)
    requires
        rules.len() > 0,
        rules_well_formed(rules),
        stands_at(input, pos, rules_kinds(rules)),
        !is_name_at(input, pos + rules_kinds(rules).len()),
    ensures
        parse_rules(input, pos, event, found) == Ok::<(Seq<TransitionView>, int), GrammarError>(
            (found + rules_meaning(event, rules), pos + rules_kinds(rules).len()),
        ),
    decreases rules.len(),
{
    let first = rules[0];
    let rest = rules.drop_first();
    assert(rule_well_formed(first));
    lemma_stands_at_split(input, pos, rule_kinds(first), rules_kinds(rest));
    lemma_rule_read(input, pos, event, first);
    let next = pos + rule_kinds(first).len();
    let transitions = expand(event, first.sources.names, first.target);
    if rest.len() == 0 {
        assert(rules_kinds(rest) =~= Seq::empty());
        assert(rules_meaning(event, rest) =~= Seq::empty());
        assert(found + transitions =~= found + rules_meaning(event, rules));
    } else {
        assert(rules_well_formed(rest)) by {
            assert forall|i: int| 0 <= i < rest.len() implies rule_well_formed(
                #[trigger] rest[i],
            ) by {
                assert(rest[i] == rules[i + 1]);
            }
        }
        assert(rule_well_formed(rest[0]));
        lemma_rule_kinds_first(rest[0]);
        assert(rules_kinds(rest)[0] == rule_kinds(rest[0])[0]);
        assert(kind_at(input, next + 0) == Some(rules_kinds(rest)[0]));
        lemma_rules_read(input, next, event, rest, found + transitions);
        assert((found + transitions) + rules_meaning(event, rest) =~= found + rules_meaning(
            event,
            rules,
        ));
    }
}

/// The block of an event is read as the transitions of its rules.
pub proof fn lemma_block_read(
    input: Input,
    pos: int,
    block: BlockSyntax,
    found: Seq<TransitionView>,
)
    requires
        block_well_formed(block),
        stands_at(input, pos, block_kinds(block)),
    ensures
        parse_block(input, pos, found) == Ok::<(Seq<TransitionView>, int), GrammarError>(
            (found + rules_meaning(block.event, block.rules), pos + block_kinds(block).len()),
        ),
{
    let head = seq![KindView::Ident(block.event), KindView::OpenBrace];
    let rules = rules_kinds(block.rules);
    let close = seq![KindView::CloseBrace];
    assert(block_kinds(block) =~= head + (rules + close));
    lemma_stands_at_split(input, pos, head, rules + close);
    lemma_stands_at_split(input, pos + 2, rules, close);
    assert(kind_at(input, pos + 0) == Some(head[0]));
    assert(kind_at(input, pos + 1) == Some(head[1]));
    assert(kind_at(input, pos + 2 + rules.len() + 0) == Some(close[0]));
    lemma_rules_read(input, pos + 2, block.event, block.rules, found);
}

/// The tokens of a block begin with a name.
pub proof fn lemma_block_kinds_first(block: BlockSyntax)
    ensures
        block_kinds(block).len() > 0,
        block_kinds(block)[0] is Ident,
{
}

/// Blocks that follow each other are read as their transitions, in the
/// order of the blocks, provided that no name follows the last block.
pub proof fn lemma_blocks_read(
    input: Input,
    pos: int,
    blocks: Seq<BlockSyntax>,
    found: Seq<TransitionView>,
)
    requires
        blocks_well_formed(blocks),
        stands_at(input, pos, blocks_kinds(blocks)),
        !is_name_at(input, pos + blocks_kinds(blocks).len()),
    ensures
        parse_blocks(input, pos, found) == Ok::<(Seq<TransitionView>, int), GrammarError>(
            (found + blocks_meaning(blocks), pos + blocks_kinds(blocks).len()),
        ),
    decreases blocks.len(),
{
    if blocks.len() == 0 {
        assert(found + blocks_meaning(blocks) =~= found);
    } else {
        let first = blocks[0];
        let rest = blocks.drop_first();
        assert(block_well_formed(first));
        lemma_stands_at_split(input, pos, block_kinds(first), blocks_kinds(rest));
        lemma_block_kinds_first(first);
        assert(blocks_kinds(blocks)[0] == block_kinds(first)[0]);
        assert(kind_at(input, pos + 0) == Some(blocks_kinds(blocks)[0]));
        lemma_block_read(input, pos, first, found);
        assert(blocks_well_formed(rest)) by {
            assert forall|i: int| 0 <= i < rest.len() implies block_well_formed(
                #[trigger] rest[i],
            ) by {
                assert(rest[i] == blocks[i + 1]);
            }
        }
        let transitions = rules_meaning(first.event, first.rules);
        lemma_blocks_read(input, pos + block_kinds(first).len(), rest, found + transitions);
        assert((found + transitions) + blocks_meaning(rest) =~= found + blocks_meaning(blocks));
    }
}

/// The block of the initial states is read as its names.
pub proof fn lemma_initial_states_read(input: Input, pos: int, names: NamesSyntax)
    requires
        names_well_formed(names),
        stands_at(input, pos, initial_states_kinds(names)),
    ensures
        parse_initial_states(input, pos) == Ok::<(Seq<Seq<char>>, int), GrammarError>(
            (names.names, pos + initial_states_kinds(names).len()),
        ),
{
    let head = seq![KindView::Ident(initial_states_keyword()), KindView::OpenBrace];
    let list = names_kinds(names);
    let close = seq![KindView::CloseBrace];
    assert(initial_states_kinds(names) =~= head + (list + close));
    lemma_stands_at_split(input, pos, head, list + close);
    lemma_stands_at_split(input, pos + 2, list, close);
    assert(kind_at(input, pos + 0) == Some(head[0]));
    assert(kind_at(input, pos + 1) == Some(head[1]));
    assert(kind_at(input, pos + 2 + list.len() + 0) == Some(close[0]));
    lemma_names_read(input, pos + 2, names, Seq::empty());
    assert(Seq::<Seq<char>>::empty() + names.names =~= names.names);
}

/// A machine is read as what it declares.
pub proof fn lemma_machine_read(input: Input, pos: int, machine: MachineSyntax)
    requires
        machine_well_formed(machine),
        stands_at(input, pos, machine_kinds(machine)),
    ensures
        parse_machine(input, pos) == Ok::<(MachineView, int), GrammarError>(
            (machine_meaning(machine), pos + machine_kinds(machine).len()),
        ),
{
    let head = seq![KindView::Ident(machine.name), KindView::OpenBrace];
    let initial = initial_states_kinds(machine.initial_states);
    let blocks = blocks_kinds(machine.blocks);
    let close = seq![KindView::CloseBrace];
    assert(machine_kinds(machine) =~= head + (initial + (blocks + close)));
    lemma_stands_at_split(input, pos, head, initial + (blocks + close));
    lemma_stands_at_split(input, pos + 2, initial, blocks + close);
    lemma_stands_at_split(input, pos + 2 + initial.len(), blocks, close);
    assert(kind_at(input, pos + 0) == Some(head[0]));
    assert(kind_at(input, pos + 1) == Some(head[1]));
    assert(kind_at(input, pos + 2 + initial.len() + blocks.len() + 0) == Some(close[0]));
    lemma_initial_states_read(input, pos + 2, machine.initial_states);
    lemma_blocks_read(input, pos + 2 + initial.len(), machine.blocks, Seq::empty());
    assert(Seq::<TransitionView>::empty() + blocks_meaning(machine.blocks) =~= blocks_meaning(
        machine.blocks,
    ));
}

/// Machines that follow each other are read as what they declare, in their
/// order, provided that no name follows the last machine.
pub proof fn lemma_machines_read(
    input: Input,
    pos: int,
    machines: Seq<MachineSyntax>,
    found: Seq<MachineView>,
)
    requires
        machines_well_formed(machines),
        stands_at(input, pos, machines_kinds(machines)),
        !is_name_at(input, pos + machines_kinds(machines).len()),
    ensures
        parse_machines(input, pos, found) == Ok::<(Seq<MachineView>, int), GrammarError>(
            (found + machines_meaning(machines), pos + machines_kinds(machines).len()),
        ),
    decreases machines.len(),
{
    if machines.len() == 0 {
        assert(found + machines_meaning(machines) =~= found);
    } else {
        let first = machines[0];
        let rest = machines.drop_first();
        assert(machine_well_formed(first));
        lemma_stands_at_split(input, pos, machine_kinds(first), machines_kinds(rest));
        assert(machines_kinds(machines)[0] == machine_kinds(first)[0]);
        assert(kind_at(input, pos + 0) == Some(machines_kinds(machines)[0]));
        lemma_machine_read(input, pos, first);
        assert(machines_well_formed(rest)) by {
            assert forall|i: int| 0 <= i < rest.len() implies machine_well_formed(
                #[trigger] rest[i],
            ) by {
                assert(rest[i] == machines[i + 1]);
            }
        }
        lemma_machines_read(
            input,
            pos + machine_kinds(first).len(),
            rest,
            found.push(machine_meaning(first)),
        );
        assert(found.push(machine_meaning(first)) + machines_meaning(rest) =~= found
            + machines_meaning(machines));
    }
}

/// Every description is read as what it means: where the tokens of a text
/// are those of well-formed machines, written one after the other, reading
/// the text gives the machines that they declare.
pub proof fn lemma_description_read(input: Input, machines: Seq<MachineSyntax>)
    requires
        machines_well_formed(machines),
        input.tokens.len() == machines_kinds(machines).len(),
        stands_at(input, 0, machines_kinds(machines)),
    ensures
        complete(input, parse_machines(input, 0, Seq::empty())) == Ok::<
            Seq<MachineView>,
            GrammarError,
        >(machines_meaning(machines)),
{
    lemma_machines_read(input, 0, machines, Seq::empty());
    assert(Seq::<MachineView>::empty() + machines_meaning(machines) =~= machines_meaning(machines));
}

/// One token stands where its kind is found.
pub proof fn lemma_stands_at_one(input: Input, pos: int, kind: KindView)
    requires
        kind_at(input, pos) == Some(kind),
    ensures
        stands_at(input, pos, seq![kind]),
{
    assert forall|k: int| 0 <= k < seq![kind].len() implies kind_at(input, pos + k) == Some(
        #[trigger] seq![kind][k],
    ) by {
        assert(pos + k == pos);
    }
}

/// Two tokens stand where their kinds are found one behind the other.
pub proof fn lemma_stands_at_two(input: Input, pos: int, first: KindView, second: KindView)
    requires
        kind_at(input, pos) == Some(first),
        kind_at(input, pos + 1) == Some(second),
    ensures
        stands_at(input, pos, seq![first, second]),
{
    lemma_stands_at_one(input, pos, first);
    lemma_stands_at_one(input, pos + 1, second);
    lemma_stands_at_split(input, pos, seq![first], seq![second]);
    assert(seq![first] + seq![second] =~= seq![first, second]);
}

/// Names that were read were written as a list of names: there is such a
/// list whose tokens stand where the names were read, and whose names are
/// those that were read.
pub proof fn lemma_names_written(input: Input, pos: int, found: Seq<Seq<char>>) -> (names:
    NamesSyntax)
    requires
        parse_names(input, pos, found) is Ok,
    ensures
        names_well_formed(names),
        stands_at(input, pos, names_kinds(names)),
        parse_names(input, pos, found) == Ok::<(Seq<Seq<char>>, int), GrammarError>(
            (found + names.names, pos + names_kinds(names).len()),
        ),
    decreases input.tokens.len() - pos,
{
    let name = expect_name(input, pos)->Ok_0.0;
    let next = pos + 1;
    if kind_at(input, next) == Some(KindView::Comma) {
        if is_name_at(input, next + 1) {
            let rest = lemma_names_written(input, next + 1, found.push(name));
            let names = NamesSyntax {
                names: seq![name] + rest.names,
                trailing_comma: rest.trailing_comma,
            };
            let head = seq![KindView::Ident(name), KindView::Comma];
            assert(names.names.drop_first() =~= rest.names);
            assert(names_kinds(names) =~= head + names_kinds(rest));
            lemma_stands_at_two(input, pos, head[0], head[1]);
            assert(seq![head[0], head[1]] =~= head);
            lemma_stands_at_split(input, pos, head, names_kinds(rest));
            assert(found.push(name) + rest.names =~= found + names.names);
            names
        } else {
            let names = NamesSyntax { names: seq![name], trailing_comma: true };
            let kinds = seq![KindView::Ident(name), KindView::Comma];
            assert(names_kinds(names) =~= kinds);
            lemma_stands_at_two(input, pos, kinds[0], kinds[1]);
            assert(seq![kinds[0], kinds[1]] =~= kinds);
            assert(found.push(name) =~= found + names.names);
            names
        }
    } else {
        let names = NamesSyntax { names: seq![name], trailing_comma: false };
        let kinds = seq![KindView::Ident(name)];
        assert(names_kinds(names) =~= kinds);
        lemma_stands_at_one(input, pos, kinds[0]);
        assert(seq![kinds[0]] =~= kinds);
        assert(found.push(name) =~= found + names.names);
        names
    }
}

/// A rule that was read was written as a rule.
pub proof fn lemma_rule_written(input: Input, pos: int, event: Seq<char>) -> (rule: RuleSyntax)
    requires
        parse_rule(input, pos, event) is Ok,
    ensures
        rule_well_formed(rule),
        stands_at(input, pos, rule_kinds(rule)),
        parse_rule(input, pos, event) == Ok::<(Seq<TransitionView>, int), GrammarError>(
            (expand(event, rule.sources.names, rule.target), pos + rule_kinds(rule).len()),
        ),
{
    let sources = lemma_names_written(input, pos, Seq::empty());
    assert(Seq::<Seq<char>>::empty() + sources.names =~= sources.names);
    let arrow = pos + names_kinds(sources).len();
    let target = expect_name(input, arrow + 1)->Ok_0.0;
    let rule = RuleSyntax { sources, target };
    let tail = seq![KindView::Arrow, KindView::Ident(target)];
    lemma_stands_at_two(input, arrow, tail[0], tail[1]);
    assert(seq![tail[0], tail[1]] =~= tail);
    lemma_stands_at_split(input, pos, names_kinds(sources), tail);
    rule
}

/// Rules that were read were written as rules, one after the other.
pub proof fn lemma_rules_written(
    input: Input,
    pos: int,
    event: Seq<char>,
    found: Seq<TransitionView>,
) -> (rules: Seq<RuleSyntax>)
    requires
        parse_rules(input, pos, event, found) is Ok,
    ensures
        rules.len() > 0,
        rules_well_formed(rules),
        stands_at(input, pos, rules_kinds(rules)),
        parse_rules(input, pos, event, found) == Ok::<(Seq<TransitionView>, int), GrammarError>(
            (found + rules_meaning(event, rules), pos + rules_kinds(rules).len()),
        ),
    decreases input.tokens.len() - pos,
{
    let first = lemma_rule_written(input, pos, event);
    let transitions = expand(event, first.sources.names, first.target);
    let next = pos + rule_kinds(first).len();
    if is_name_at(input, next) {
        let rest = lemma_rules_written(input, next, event, found + transitions);
        let rules = seq![first] + rest;
        assert(rules.drop_first() =~= rest);
        assert(rules[0] == first);
        assert(rules_well_formed(rules)) by {
            assert forall|i: int| 0 <= i < rules.len() implies rule_well_formed(
                #[trigger] rules[i],
            ) by {
                if i > 0 {
                    assert(rules[i] == rest[i - 1]);
                }
            }
        }
        lemma_stands_at_split(input, pos, rule_kinds(first), rules_kinds(rest));
        assert((found + transitions) + rules_meaning(event, rest) =~= found + rules_meaning(
            event,
            rules,
        ));
        rules
    } else {
        let rules = seq![first];
        assert(rules.drop_first() =~= Seq::<RuleSyntax>::empty());
        assert(rules_kinds(rules.drop_first()) =~= Seq::empty());
        assert(rules_meaning(event, rules.drop_first()) =~= Seq::empty());
        assert(rules_kinds(rules) =~= rule_kinds(first));
        assert(found + transitions =~= found + rules_meaning(event, rules));
        rules
    }
}

/// A block that was read was written as a block.
pub proof fn lemma_block_written(input: Input, pos: int, found: Seq<TransitionView>) -> (block:
    BlockSyntax)
    requires
        parse_block(input, pos, found) is Ok,
    ensures
        block_well_formed(block),
        stands_at(input, pos, block_kinds(block)),
        parse_block(input, pos, found) == Ok::<(Seq<TransitionView>, int), GrammarError>(
            (found + rules_meaning(block.event, block.rules), pos + block_kinds(block).len()),
        ),
{
    let event = expect_name(input, pos)->Ok_0.0;
    let rules = lemma_rules_written(input, pos + 2, event, found);
    let block = BlockSyntax { event, rules };
    let head = seq![KindView::Ident(event), KindView::OpenBrace];
    let close = seq![KindView::CloseBrace];
    let inner = rules_kinds(rules);
    assert(block_kinds(block) =~= head + (inner + close));
    lemma_stands_at_two(input, pos, head[0], head[1]);
    assert(seq![head[0], head[1]] =~= head);
    lemma_stands_at_one(input, pos + 2 + inner.len(), close[0]);
    assert(seq![close[0]] =~= close);
    lemma_stands_at_split(input, pos + 2, inner, close);
    lemma_stands_at_split(input, pos, head, inner + close);
    block
}

/// Blocks that were read were written as blocks, one after the other.
pub proof fn lemma_blocks_written(input: Input, pos: int, found: Seq<TransitionView>) -> (blocks:
    Seq<BlockSyntax>)
    requires
        0 <= pos <= input.tokens.len(),
        parse_blocks(input, pos, found) is Ok,
    ensures
        blocks_well_formed(blocks),
        stands_at(input, pos, blocks_kinds(blocks)),
        parse_blocks(input, pos, found) == Ok::<(Seq<TransitionView>, int), GrammarError>(
            (found + blocks_meaning(blocks), pos + blocks_kinds(blocks).len()),
        ),
    decreases input.tokens.len() - pos,
{
    if is_name_at(input, pos) {
        let first = lemma_block_written(input, pos, found);
        let transitions = rules_meaning(first.event, first.rules);
        let next = pos + block_kinds(first).len();
        let rest = lemma_blocks_written(input, next, found + transitions);
        let blocks = seq![first] + rest;
        assert(blocks.drop_first() =~= rest);
        assert(blocks[0] == first);
        assert(blocks_well_formed(blocks)) by {
            assert forall|i: int| 0 <= i < blocks.len() implies block_well_formed(
                #[trigger] blocks[i],
            ) by {
                if i > 0 {
                    assert(blocks[i] == rest[i - 1]);
                }
            }
        }
        lemma_stands_at_split(input, pos, block_kinds(first), blocks_kinds(rest));
        assert((found + transitions) + blocks_meaning(rest) =~= found + blocks_meaning(blocks));
        blocks
    } else {
        let blocks = Seq::<BlockSyntax>::empty();
        assert(found + blocks_meaning(blocks) =~= found);
        blocks
    }
}

/// A block of initial states that was read was written as one.
pub proof fn lemma_initial_states_written(input: Input, pos: int) -> (names: NamesSyntax)
    requires
        parse_initial_states(input, pos) is Ok,
    ensures
        names_well_formed(names),
        stands_at(input, pos, initial_states_kinds(names)),
        parse_initial_states(input, pos) == Ok::<(Seq<Seq<char>>, int), GrammarError>(
            (names.names, pos + initial_states_kinds(names).len()),
        ),
{
    let names = lemma_names_written(input, pos + 2, Seq::empty());
    assert(Seq::<Seq<char>>::empty() + names.names =~= names.names);
    let head = seq![KindView::Ident(initial_states_keyword()), KindView::OpenBrace];
    let close = seq![KindView::CloseBrace];
    let inner = names_kinds(names);
    assert(initial_states_kinds(names) =~= head + (inner + close));
    lemma_stands_at_two(input, pos, head[0], head[1]);
    assert(seq![head[0], head[1]] =~= head);
    lemma_stands_at_one(input, pos + 2 + inner.len(), close[0]);
    assert(seq![close[0]] =~= close);
    lemma_stands_at_split(input, pos + 2, inner, close);
    lemma_stands_at_split(input, pos, head, inner + close);
    names
}

/// A machine that was read was written as a machine.
pub proof fn lemma_machine_written(input: Input, pos: int) -> (machine: MachineSyntax)
    requires
        parse_machine(input, pos) is Ok,
    ensures
        machine_well_formed(machine),
        stands_at(input, pos, machine_kinds(machine)),
        parse_machine(input, pos) == Ok::<(MachineView, int), GrammarError>(
            (machine_meaning(machine), pos + machine_kinds(machine).len()),
        ),
{
    let name = expect_name(input, pos)->Ok_0.0;
    let initial_states = lemma_initial_states_written(input, pos + 2);
    let initial = initial_states_kinds(initial_states);
    let blocks = lemma_blocks_written(input, pos + 2 + initial.len(), Seq::empty());
    assert(Seq::<TransitionView>::empty() + blocks_meaning(blocks) =~= blocks_meaning(blocks));
    let machine = MachineSyntax { name, initial_states, blocks };
    let head = seq![KindView::Ident(name), KindView::OpenBrace];
    let inner = blocks_kinds(blocks);
    let close = seq![KindView::CloseBrace];
    assert(machine_kinds(machine) =~= head + (initial + (inner + close)));
    lemma_stands_at_two(input, pos, head[0], head[1]);
    assert(seq![head[0], head[1]] =~= head);
    lemma_stands_at_one(input, pos + 2 + initial.len() + inner.len(), close[0]);
    assert(seq![close[0]] =~= close);
    lemma_stands_at_split(input, pos + 2 + initial.len(), inner, close);
    lemma_stands_at_split(input, pos + 2, initial, inner + close);
    lemma_stands_at_split(input, pos, head, initial + (inner + close));
    machine
}

/// Machines that were read were written as machines, one after the other.
pub proof fn lemma_machines_written(input: Input, pos: int, found: Seq<MachineView>) -> (machines:
    Seq<MachineSyntax>)
    requires
        0 <= pos <= input.tokens.len(),
        parse_machines(input, pos, found) is Ok,
    ensures
        machines_well_formed(machines),
        stands_at(input, pos, machines_kinds(machines)),
        parse_machines(input, pos, found) == Ok::<(Seq<MachineView>, int), GrammarError>(
            (found + machines_meaning(machines), pos + machines_kinds(machines).len()),
        ),
    decreases input.tokens.len() - pos,
{
    if is_name_at(input, pos) {
        let first = lemma_machine_written(input, pos);
        let next = pos + machine_kinds(first).len();
        let rest = lemma_machines_written(input, next, found.push(machine_meaning(first)));
        let machines = seq![first] + rest;
        assert(machines.drop_first() =~= rest);
        assert(machines[0] == first);
        assert(machines_well_formed(machines)) by {
            assert forall|i: int| 0 <= i < machines.len() implies machine_well_formed(
                #[trigger] machines[i],
            ) by {
                if i > 0 {
                    assert(machines[i] == rest[i - 1]);
                }
            }
        }
        lemma_stands_at_split(input, pos, machine_kinds(first), machines_kinds(rest));
        assert(found.push(machine_meaning(first)) + machines_meaning(rest) =~= found
            + machines_meaning(machines));
        machines
    } else {
        let machines = Seq::<MachineSyntax>::empty();
        assert(found + machines_meaning(machines) =~= found);
        machines
    }
}

/// What is read was written: where reading a text gives machines, the tokens
/// of the text are those of well-formed machines, written one after the
/// other, which declare the machines that were read.
pub proof fn lemma_description_written(input: Input) -> (machines: Seq<MachineSyntax>)
    requires
        complete(input, parse_machines(input, 0, Seq::empty())) is Ok,
    ensures
        machines_well_formed(machines),
        input.tokens.len() == machines_kinds(machines).len(),
        stands_at(input, 0, machines_kinds(machines)),
        complete(input, parse_machines(input, 0, Seq::empty())) == Ok::<
            Seq<MachineView>,
            GrammarError,
        >(machines_meaning(machines)),
{
    let machines = lemma_machines_written(input, 0, Seq::empty());
    assert(Seq::<MachineView>::empty() + machines_meaning(machines) =~= machines_meaning(machines));
    machines
}

/// The kinds of the given tokens.
pub open spec fn kinds_of(tokens: Seq<TokenView>) -> Seq<KindView> {
    tokens.map_values(|t: TokenView| t.kind)
}

/// Whether the text is a description of the given machines: it can be cut
/// into tokens, and its tokens are those of the machines, written one after
/// the other.
pub open spec fn describes(text: Seq<char>, machines: Seq<MachineSyntax>) -> bool {
    &&& machines_well_formed(machines)
    &&& tokens_of(text) is Ok
    &&& kinds_of(tokens_of(text)->Ok_0) == machines_kinds(machines)
}

/// A text that describes machines is read as these machines and compiled to
/// their models.
pub proof fn lemma_text_read(text: Seq<char>, machines: Seq<MachineSyntax>)
    requires
        describes(text, machines),
    ensures
        machines_of_text(text) == Ok::<Seq<MachineView>, GrammarError>(
            machines_meaning(machines),
        ),
        compiled(text) == Ok::<Seq<ModelView>, CompileError>(
            models_of(machines_meaning(machines)),
        ),
{
    let tokens = tokens_of(text)->Ok_0;
    let input = input_of(text, tokens);
    let kinds = machines_kinds(machines);
    assert(stands_at(input, 0, kinds)) by {
        assert forall|k: int| 0 <= k < kinds.len() implies kind_at(input, 0 + k) == Some(
            #[trigger] kinds[k],
        ) by {
            assert(kinds_of(tokens)[k] == tokens[k].kind);
        }
    }
    lemma_description_read(input, machines);
}

/// A text that is read describes machines, and it is read as what they
/// declare.
pub proof fn lemma_text_written(text: Seq<char>) -> (machines: Seq<MachineSyntax>)
    requires
        machines_of_text(text) is Ok,
    ensures
        describes(text, machines),
        machines_of_text(text) == Ok::<Seq<MachineView>, GrammarError>(
            machines_meaning(machines),
        ),
{
    let tokens = tokens_of(text)->Ok_0;
    let input = input_of(text, tokens);
    let machines = lemma_description_written(input);
    let kinds = machines_kinds(machines);
    assert(kinds_of(tokens) =~= kinds) by {
        assert forall|k: int| 0 <= k < kinds.len() implies kinds_of(tokens)[k] == kinds[k] by {
            assert(kind_at(input, 0 + k) == Some(kinds[k]));
        }
    }
    machines
}

} // verus!
