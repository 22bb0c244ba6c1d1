//! Translation of the write stages of a query text into blocks of
//! constraints.

use crate::pattern::{Constraint, Has, Isa, Links};
use crate::registry::{
    category_after, category_conflict, mismatch_reported, RepresentationError,
    VariableCategorySource, VariableRegistry,
};
use crate::stage::{Block, Conjunction};
use crate::variable::{Variable, VariableCategory, VariableOptionality};
use vstd::prelude::*;

verus! {

/// A variable of a query text: with a name, or without.
pub struct TypeQLVariable {
    pub name: Option<String>,
}

/// A player of a role in a relation of a query text.
pub struct RolePlayerPattern {
    pub player: TypeQLVariable,
}

/// What a delete stage deletes: that an owner has an attribute; that a
/// relation links players; or a concept.
pub enum DeletableKind {
    Has { attribute: TypeQLVariable, owner: TypeQLVariable },
    Links { players: Vec<RolePlayerPattern>, relation: TypeQLVariable },
    Concept { variable: TypeQLVariable },
}

/// One thing to delete.
pub struct Deletable {
    pub kind: DeletableKind,
}

/// A delete stage of a query text.
pub struct Delete {
    pub deletables: Vec<Deletable>,
}

/// A statement of an insert stage: that a thing is of a type; that an owner
/// has an attribute; or that a relation links players.
pub enum Statement {
    Isa { thing: TypeQLVariable, type_: TypeQLVariable },
    Has { owner: TypeQLVariable, attribute: TypeQLVariable },
    Links { relation: TypeQLVariable, players: Vec<RolePlayerPattern> },
}

/// An insert stage of a query text.
pub struct Insert {
    pub statements: Vec<Statement>,
}

/// The variables of a query as far as it has been translated: the registry,
/// and the variable that stands for each name.
pub struct TranslationContext {
    pub variable_registry: VariableRegistry,
    pub visible_variables: Vec<(String, Variable)>,
}

/// The variable that stands for a name: that of the first entry with the
/// name.
pub open spec fn variable_named(visible: Seq<(Seq<char>, Variable)>, name: Seq<char>) -> Option<
    Variable,
>
    decreases visible.len(),
{
    if visible.len() == 0 {
        None
    } else {
        match variable_named(visible.drop_last(), name) {
            Some(variable) => Some(variable),
            None => if visible.last().0 == name {
                Some(visible.last().1)
            } else {
                None
            },
        }
    }
}

/// What is found for a name among the first entries is what is found among
/// all of them.
proof fn lemma_variable_named_extends(
    visible: Seq<(Seq<char>, Variable)>,
    upto: int,
    name: Seq<char>,
)
    requires
        0 <= upto <= visible.len(),
        variable_named(visible.take(upto), name) is Some,
    ensures
        variable_named(visible, name) == variable_named(visible.take(upto), name),
    decreases visible.len() - upto,
{
    if upto < visible.len() {
        let next = visible.take(upto + 1);
        assert(next.drop_last() =~= visible.take(upto));
        lemma_variable_named_extends(visible, upto + 1, name);
    } else {
        assert(visible.take(upto) =~= visible);
    }
}

/// The variable that is found for a name is the variable of an entry.
proof fn lemma_variable_named_is_listed(visible: Seq<(Seq<char>, Variable)>, name: Seq<char>)
    ensures
        variable_named(visible, name) matches Some(variable) ==> exists|i: int|
            0 <= i < visible.len() && (#[trigger] visible[i]).1 == variable,
    decreases visible.len(),
{
    if visible.len() > 0 {
        let front = visible.drop_last();
        lemma_variable_named_is_listed(front, name);
        match variable_named(front, name) {
            Some(variable) => {
                let at = choose|i: int| 0 <= i < front.len() && (#[trigger] front[i]).1 == variable;
                assert(visible[at].1 == variable);
            },
            None => {
                assert(visible[visible.len() - 1] == visible.last());
            },
        }
    }
}

/// What a translation has come to: the variables, the constraints written
/// so far, the variables to delete, and the conflict of categories that
/// ended it, if one did.
pub struct Translated {
    pub allocated: nat,
    pub names: Map<Variable, Seq<char>>,
    pub named_order: Seq<Variable>,
    pub categories: Map<Variable, (VariableCategory, VariableCategorySource)>,
    pub visible: Seq<(Seq<char>, Variable)>,
    pub constraints: Seq<Constraint>,
    pub deleted: Seq<Variable>,
    pub conflict: Option<(Variable, VariableCategory)>,
}

/// The next variable: with the given name, or without one.
pub open spec fn allocated_variable(state: Translated, named: bool) -> Variable {
    Variable { id: state.allocated as u16, anonymous: !named }
}

/// The state after the variable of `name` was looked up or declared, and
/// that variable. A name that stands for a variable keeps it; a new name
/// gets the next variable.
pub open spec fn declared(state: Translated, name: Seq<char>) -> (Translated, Variable) {
    match variable_named(state.visible, name) {
        Some(variable) => (state, variable),
        None => {
            let variable = allocated_variable(state, true);
            (
                Translated {
                    allocated: state.allocated + 1,
                    names: state.names.insert(variable, name),
                    named_order: state.named_order.push(variable),
                    visible: state.visible.push((name, variable)),
                    ..state
                },
                variable,
            )
        },
    }
}

/// The state after a variable of the query text was registered, and its
/// variable: that of its name, or a new one without a name.
pub open spec fn registered(state: Translated, variable: TypeQLVariable) -> (Translated, Variable) {
    match variable.name {
        Some(name) => declared(state, name@),
        None => (
            Translated { allocated: state.allocated + 1, ..state },
            allocated_variable(state, false),
        ),
    }
}

/// The state after `variable` was given `category` on behalf of
/// `constraint`: the categories are narrowed, or the conflict is recorded.
pub open spec fn categorized(
    state: Translated,
    variable: Variable,
    category: VariableCategory,
    constraint: Constraint,
) -> Translated {
    if state.conflict is Some {
        state
    } else if category_conflict(state.categories, variable, category) {
        Translated { conflict: Some((variable, category)), ..state }
    } else {
        Translated {
            categories: category_after(
                state.categories,
                variable,
                category,
                VariableCategorySource::Constraint(constraint),
            ),
            ..state
        }
    }
}

/// The state after a constraint was written, unless a conflict came before.
pub open spec fn constrained(state: Translated, constraint: Constraint) -> Translated {
    if state.conflict is Some {
        state
    } else {
        Translated { constraints: state.constraints.push(constraint), ..state }
    }
}

/// The state after `owner has attribute` was written: the owner is an
/// object, the attribute an attribute.
pub open spec fn has_written(state: Translated, owner: Variable, attribute: Variable) -> Translated {
    let constraint = Constraint::Has(Has { owner, attribute });
    constrained(
        categorized(
            categorized(state, owner, VariableCategory::Object, constraint),
            attribute,
            VariableCategory::Attribute,
            constraint,
        ),
        constraint,
    )
}

/// The state after `relation links (role: player)` was written: the
/// relation is a relation, the player an object, the role a role.
pub open spec fn links_written(
    state: Translated,
    relation: Variable,
    player: Variable,
    role_type: Variable,
) -> Translated {
    let constraint = Constraint::Links(Links { relation, player, role_type });
    constrained(
        categorized(
            categorized(
                categorized(state, relation, VariableCategory::Relation, constraint),
                player,
                VariableCategory::Object,
                constraint,
            ),
            role_type,
            VariableCategory::Role,
            constraint,
        ),
        constraint,
    )
}

/// The state after `thing isa type_` was written: the thing is a thing, the
/// type a type.
pub open spec fn isa_written(state: Translated, thing: Variable, type_: Variable) -> Translated {
    let constraint = Constraint::Isa(Isa { thing, type_ });
    constrained(
        categorized(
            categorized(state, thing, VariableCategory::Thing, constraint),
            type_,
            VariableCategory::Type,
            constraint,
        ),
        constraint,
    )
}

/// The state after the players of a relation were written, each with a new
/// role variable without a name. A conflict ends the writing.
pub open spec fn players_written(
    state: Translated,
    relation: Variable,
    players: Seq<RolePlayerPattern>,
) -> Translated
    decreases players.len(),
{
    if players.len() == 0 {
        state
    } else {
        let before = players_written(state, relation, players.drop_last());
        if before.conflict is Some {
            before
        } else {
            let (with_player, player) = registered(before, players.last().player);
            let role_type = allocated_variable(with_player, false);
            links_written(
                Translated { allocated: with_player.allocated + 1, ..with_player },
                relation,
                player,
                role_type,
            )
        }
    }
}

/// The state after one deletable was translated.
pub open spec fn deletable_translated(state: Translated, deletable: Deletable) -> Translated {
    match deletable.kind {
        DeletableKind::Has { attribute, owner } => {
            let (with_owner, owner) = registered(state, owner);
            let (with_both, attribute) = registered(with_owner, attribute);
            has_written(with_both, owner, attribute)
        },
        DeletableKind::Links { players, relation } => {
            let (with_relation, relation) = registered(state, relation);
            players_written(with_relation, relation, players@)
        },
        DeletableKind::Concept { variable } => {
            let (with_variable, variable) = registered(state, variable);
            Translated { deleted: with_variable.deleted.push(variable), ..with_variable }
        },
    }
}

/// The state after the deletables were translated in order. A conflict
/// ends the translation.
pub open spec fn delete_translated(state: Translated, deletables: Seq<Deletable>) -> Translated
    decreases deletables.len(),
{
    if deletables.len() == 0 {
        state
    } else {
        let before = delete_translated(state, deletables.drop_last());
        if before.conflict is Some {
            before
        } else {
            deletable_translated(before, deletables.last())
        }
    }
}

/// The state after one statement of an insert was translated.
pub open spec fn statement_translated(state: Translated, statement: Statement) -> Translated {
    match statement {
        Statement::Isa { thing, type_ } => {
            let (with_thing, thing) = registered(state, thing);
            let (with_both, type_) = registered(with_thing, type_);
            isa_written(with_both, thing, type_)
        },
        Statement::Has { owner, attribute } => {
            let (with_owner, owner) = registered(state, owner);
            let (with_both, attribute) = registered(with_owner, attribute);
            has_written(with_both, owner, attribute)
        },
        Statement::Links { relation, players } => {
            let (with_relation, relation) = registered(state, relation);
            players_written(with_relation, relation, players@)
        },
    }
}

/// The state after the statements of an insert were translated in order.
/// A conflict ends the translation.
pub open spec fn insert_translated(state: Translated, statements: Seq<Statement>) -> Translated
    decreases statements.len(),
{
    if statements.len() == 0 {
        state
    } else {
        let before = insert_translated(state, statements.drop_last());
        if before.conflict is Some {
            before
        } else {
            statement_translated(before, statements.last())
        }
    }
}

/// Whether every concept that the deletables delete goes by a name.
pub open spec fn concepts_named(deletables: Seq<Deletable>) -> bool {
    forall|i: int|
        0 <= i < deletables.len() ==> ((#[trigger] deletables[i]).kind matches DeletableKind::Concept {
            variable,
        } ==> variable.name is Some)
}

/// How many variables the players of a relation can need: one for each
/// player and one for each role.
pub open spec fn players_need(players: Seq<RolePlayerPattern>) -> nat {
    2 * players.len()
}

/// How many variables a deletable can need.
pub open spec fn deletable_needs(deletable: Deletable) -> nat {
    match deletable.kind {
        DeletableKind::Has { .. } => 2,
        DeletableKind::Links { players, .. } => 1 + players_need(players@),
        DeletableKind::Concept { .. } => 1,
    }
}

/// How many variables the deletables can need together.
pub open spec fn delete_needs(deletables: Seq<Deletable>) -> nat
    decreases deletables.len(),
{
    if deletables.len() == 0 {
        0
    } else {
        delete_needs(deletables.drop_last()) + deletable_needs(deletables.last())
    }
}

/// How many variables a statement can need.
pub open spec fn statement_needs(statement: Statement) -> nat {
    match statement {
        Statement::Isa { .. } => 2,
        Statement::Has { .. } => 2,
        Statement::Links { players, .. } => 1 + players_need(players@),
    }
}

/// How many variables the statements can need together.
pub open spec fn insert_needs(statements: Seq<Statement>) -> nat
    decreases statements.len(),
{
    if statements.len() == 0 {
        0
    } else {
        insert_needs(statements.drop_last()) + statement_needs(statements.last())
    }
}

/// Fewer deletables need fewer variables.
proof fn lemma_delete_needs_prefix(deletables: Seq<Deletable>, upto: int)
    requires
        0 <= upto <= deletables.len(),
    ensures
        delete_needs(deletables.take(upto)) <= delete_needs(deletables),
    decreases deletables.len() - upto,
{
    if upto < deletables.len() {
        let next = deletables.take(upto + 1);
        assert(next.drop_last() =~= deletables.take(upto));
        lemma_delete_needs_prefix(deletables, upto + 1);
    } else {
        assert(deletables.take(upto) =~= deletables);
    }
}

/// Fewer statements need fewer variables.
proof fn lemma_insert_needs_prefix(statements: Seq<Statement>, upto: int)
    requires
        0 <= upto <= statements.len(),
    ensures
        insert_needs(statements.take(upto)) <= insert_needs(statements),
    decreases statements.len() - upto,
{
    if upto < statements.len() {
        let next = statements.take(upto + 1);
        assert(next.drop_last() =~= statements.take(upto));
        lemma_insert_needs_prefix(statements, upto + 1);
    } else {
        assert(statements.take(upto) =~= statements);
    }
}

/// The constraints and the deleted variables of a block while it is built.
pub struct BlockBuilder {
    pub constraints: Vec<Constraint>,
    pub deleted: Vec<Variable>,
}

impl TranslationContext {
    /// Well-formedness: the registry is well-formed, and it has allocated
    /// every variable that stands for a name.
    pub open spec fn wf(&self) -> bool {
        &&& self.variable_registry.wf()
        &&& forall|i: int|
            0 <= i < self.visible_variables@.len() ==> (#[trigger] self.visible_variables@[i]).1.id
                < self.variable_registry.allocated()
    }

    /// The variable that stands for each name, in the order of declaration.
    pub open spec fn visible(&self) -> Seq<(Seq<char>, Variable)> {
        self.visible_variables@.map_values(|entry: (String, Variable)| (entry.0@, entry.1))
    }

    /// Where the translation stands with this context: the variables of the
    /// context, the given constraints and deleted variables, and no
    /// conflict.
    pub open spec fn state(&self, constraints: Seq<Constraint>, deleted: Seq<Variable>) -> Translated {
        Translated {
            allocated: self.variable_registry.allocated(),
            names: self.variable_registry.names(),
            named_order: self.variable_registry.named_order(),
            categories: self.variable_registry.categories(),
            visible: self.visible(),
            constraints,
            deleted,
            conflict: None,
        }
    }

    /// A context without variables: no variable is allocated, named,
    /// categorised or optional, and no name stands for a variable.
    pub fn new() -> (context: TranslationContext)
        ensures
            context.wf(),
            context.variable_registry.allocated() == 0,
            context.variable_registry.names() == Map::<Variable, Seq<char>>::empty(),
            context.variable_registry.named_order() == Seq::<Variable>::empty(),
            context.variable_registry.categories() == Map::<
                Variable,
                (VariableCategory, VariableCategorySource),
            >::empty(),
            context.variable_registry.optionality() == Map::<
                Variable,
                VariableOptionality,
            >::empty(),
            context.visible() == Seq::<(Seq<char>, Variable)>::empty(),
    {
        let context = TranslationContext {
            variable_registry: VariableRegistry::new(),
            visible_variables: Vec::new(),
        };
        assert(context.visible() =~= Seq::<(Seq<char>, Variable)>::empty());
        context
    }

    /// The variable that stands for `name`, if one does.
    pub fn get_variable(&self, name: &str) -> (variable: Option<Variable>)
        ensures
            variable == variable_named(self.visible(), name@),
    {
        let wanted = name.to_owned();
        let mut index: usize = 0;
        while index < self.visible_variables.len()
            invariant
                index <= self.visible_variables@.len(),
                wanted@ == name@,
                variable_named(self.visible().take(index as int), name@) is None,
            decreases self.visible_variables@.len() - index,
        {
            proof {
                let upto = self.visible().take(index + 1);
                assert(upto.drop_last() =~= self.visible().take(index as int));
                assert(upto.last() == (
                    self.visible_variables@[index as int].0@,
                    self.visible_variables@[index as int].1,
                ));
            }
            if self.visible_variables[index].0 == wanted {
                proof {
                    lemma_variable_named_extends(self.visible(), index + 1, name@);
                }
                return Some(self.visible_variables[index].1);
            }
            index += 1;
        }
        proof {
            assert(self.visible().take(index as int) =~= self.visible());
        }
        None
    }

    /// The variable that stands for `name`: the one that does already, or a
    /// new one.
    pub fn get_or_declare_variable(&mut self, name: &str) -> (variable: Variable)
        requires
            old(self).wf(),
            old(self).variable_registry.allocated() < u16::MAX,
        ensures
            final(self).wf(),
            variable.id < final(self).variable_registry.allocated(),
            (final(self).state(Seq::empty(), Seq::empty()), variable) == declared(
                old(self).state(Seq::empty(), Seq::empty()),
                name@,
            ),
            final(self).variable_registry.optionality() == old(
                self,
            ).variable_registry.optionality(),
    {
        match self.get_variable(name) {
            Some(variable) => {
                proof {
                    lemma_variable_named_is_listed(self.visible(), name@);
                }
                variable
            },
            None => {
                let ghost before = self.visible();
                let variable = self.variable_registry.register_variable_named(name.to_owned());
                self.visible_variables.push((name.to_owned(), variable));
                proof {
                    assert(self.visible() =~= before.push((name@, variable)));
                }
                variable
            },
        }
    }

    /// The variable of a variable of the query text: that of its name, or a
    /// new one without a name.
    pub fn register_typeql_var(&mut self, variable: &TypeQLVariable) -> (registered_as: Variable)
        requires
            old(self).wf(),
            old(self).variable_registry.allocated() < u16::MAX,
        ensures
            final(self).wf(),
            registered_as.id < final(self).variable_registry.allocated(),
            (final(self).state(Seq::empty(), Seq::empty()), registered_as) == registered(
                old(self).state(Seq::empty(), Seq::empty()),
                *variable,
            ),
            final(self).variable_registry.optionality() == old(
                self,
            ).variable_registry.optionality(),
    {
        match &variable.name {
            Some(name) => self.get_or_declare_variable(name.as_str()),
            None => self.variable_registry.register_anonymous_variable(),
        }
    }
}


/// Whether a context stands where a translation has come to.
pub open spec fn context_matches(context: TranslationContext, expected: Translated) -> bool {
    &&& expected.allocated == context.variable_registry.allocated()
    &&& expected.names == context.variable_registry.names()
    &&& expected.named_order == context.variable_registry.named_order()
    &&& expected.categories == context.variable_registry.categories()
    &&& expected.visible == context.visible()
}

/// The error of a result, if it is one.
pub open spec fn failure_of<T>(result: Result<T, RepresentationError>) -> Option<
    RepresentationError,
> {
    match result {
        Ok(_) => None,
        Err(error) => Some(error),
    }
}

/// Whether a context and a block under construction stand where a
/// translation has come to, with the same constraints and deleted
/// variables; and whether the translation ended in a conflict exactly if
/// there is a failure, which then reports that conflict.
pub open spec fn reached(
    context: TranslationContext,
    constraints: Seq<Constraint>,
    deleted: Seq<Variable>,
    failure: Option<RepresentationError>,
    expected: Translated,
) -> bool {
    &&& context_matches(context, expected)
    &&& expected.constraints == constraints
    &&& expected.deleted == deleted
    &&& match failure {
        None => expected.conflict is None,
        Some(error) => expected.conflict matches Some((variable, category)) && mismatch_reported(
            error,
            expected.names,
            expected.categories,
            variable,
            category,
        ),
    }
}

impl BlockBuilder {
    /// A builder without constraints.
    pub fn new() -> (builder: BlockBuilder)
        ensures
            builder.constraints@ == Seq::<Constraint>::empty(),
            builder.deleted@ == Seq::<Variable>::empty(),
    {
        BlockBuilder { constraints: Vec::new(), deleted: Vec::new() }
    }

    /// The state of a translation with this builder and `context`.
    pub open spec fn state(&self, context: TranslationContext) -> Translated {
        context.state(self.constraints@, self.deleted@)
    }

    /// Gives `variable` the category `category` on behalf of `constraint`.
    fn categorize(
        &self,
        context: &mut TranslationContext,
        variable: Variable,
        category: VariableCategory,
        constraint: Constraint,
    ) -> (result: Result<(), RepresentationError>)
        requires
            old(context).wf(),
            variable.id < old(context).variable_registry.allocated(),
        ensures
            final(context).wf(),
            final(context).variable_registry.optionality() == old(
                context,
            ).variable_registry.optionality(),
            reached(
                *final(context),
                self.constraints@,
                self.deleted@,
                failure_of(result),
                categorized(self.state(*old(context)), variable, category, constraint),
            ),
    {
        context.variable_registry.set_assigned_value_variable_category(
            variable,
            category,
            constraint,
        )
    }

    /// Writes `owner has attribute`.
    pub fn add_has(
        &mut self,
        context: &mut TranslationContext,
        owner: Variable,
        attribute: Variable,
    ) -> (result: Result<(), RepresentationError>)
        requires
            old(context).wf(),
            owner.id < old(context).variable_registry.allocated(),
            attribute.id < old(context).variable_registry.allocated(),
        ensures
            final(context).wf(),
            final(context).variable_registry.optionality() == old(
                context,
            ).variable_registry.optionality(),
            reached(
                *final(context),
                final(self).constraints@,
                final(self).deleted@,
                failure_of(result),
                has_written(old(self).state(*old(context)), owner, attribute),
            ),
    {
        let constraint = Constraint::Has(Has { owner, attribute });
        self.categorize(context, owner, VariableCategory::Object, constraint)?;
        self.categorize(context, attribute, VariableCategory::Attribute, constraint)?;
        self.constraints.push(constraint);
        Ok(())
    }

    /// Writes `relation links (role_type: player)`.
    pub fn add_links(
        &mut self,
        context: &mut TranslationContext,
        relation: Variable,
        player: Variable,
        role_type: Variable,
    ) -> (result: Result<(), RepresentationError>)
        requires
            old(context).wf(),
            relation.id < old(context).variable_registry.allocated(),
            player.id < old(context).variable_registry.allocated(),
            role_type.id < old(context).variable_registry.allocated(),
        ensures
            final(context).wf(),
            final(context).variable_registry.optionality() == old(
                context,
            ).variable_registry.optionality(),
            reached(
                *final(context),
                final(self).constraints@,
                final(self).deleted@,
                failure_of(result),
                links_written(old(self).state(*old(context)), relation, player, role_type),
            ),
    {
        let constraint = Constraint::Links(Links { relation, player, role_type });
        self.categorize(context, relation, VariableCategory::Relation, constraint)?;
        self.categorize(context, player, VariableCategory::Object, constraint)?;
        self.categorize(context, role_type, VariableCategory::Role, constraint)?;
        self.constraints.push(constraint);
        Ok(())
    }

    /// Writes `thing isa type_`.
    pub fn add_isa(
        &mut self,
        context: &mut TranslationContext,
        thing: Variable,
        type_: Variable,
    ) -> (result: Result<(), RepresentationError>)
        requires
            old(context).wf(),
            thing.id < old(context).variable_registry.allocated(),
            type_.id < old(context).variable_registry.allocated(),
        ensures
            final(context).wf(),
            final(context).variable_registry.optionality() == old(
                context,
            ).variable_registry.optionality(),
            reached(
                *final(context),
                final(self).constraints@,
                final(self).deleted@,
                failure_of(result),
                isa_written(old(self).state(*old(context)), thing, type_),
            ),
    {
        let constraint = Constraint::Isa(Isa { thing, type_ });
        self.categorize(context, thing, VariableCategory::Thing, constraint)?;
        self.categorize(context, type_, VariableCategory::Type, constraint)?;
        self.constraints.push(constraint);
        Ok(())
    }

    /// The block of the constraints written.
    pub fn finish(self) -> (block: Block)
        ensures
            block.conjunction.constraints == self.constraints,
    {
        Block { conjunction: Conjunction { constraints: self.constraints } }
    }
}


/// Writes that `relation` links the players, each in a role of its own.
pub fn add_typeql_relation(
    builder: &mut BlockBuilder,
    context: &mut TranslationContext,
    relation: Variable,
    players: &Vec<RolePlayerPattern>,
) -> (result: Result<(), RepresentationError>)
    requires
        old(context).wf(),
        relation.id < old(context).variable_registry.allocated(),
        old(context).variable_registry.allocated() + players_need(players@) <= u16::MAX,
    ensures
        final(context).wf(),
        final(context).variable_registry.optionality() == old(
            context,
        ).variable_registry.optionality(),
        final(context).variable_registry.allocated() <= old(context).variable_registry.allocated()
            + players_need(players@),
        reached(
            *final(context),
            final(builder).constraints@,
            final(builder).deleted@,
            failure_of(result),
            players_written(old(builder).state(*old(context)), relation, players@),
        ),
{
    let ghost start = builder.state(*context);
    let mut index: usize = 0;
    while index < players.len()
        invariant
            index <= players@.len(),
            context.wf(),
            relation.id < context.variable_registry.allocated(),
            start == old(builder).state(*old(context)),
            old(context).variable_registry.allocated() + players_need(players@) <= u16::MAX,
            context.variable_registry.allocated() <= old(context).variable_registry.allocated() + 2
                * index,
            context.variable_registry.optionality() == old(
                context,
            ).variable_registry.optionality(),
            builder.state(*context) == players_written(start, relation, players@.take(index as int)),
        decreases players@.len() - index,
    {
        proof {
            let upto = players@.take(index + 1);
            assert(upto.drop_last() =~= players@.take(index as int));
            assert(upto.last() == players@[index as int]);
        }
        let ghost before = builder.state(*context);
        let player = context.register_typeql_var(&players[index].player);
        let role_type = context.variable_registry.register_anonymous_variable();
        proof {
            let (with_player, expected_player) = registered(before, players@[index as int].player);
            assert(builder.state(*context) == (Translated {
                allocated: with_player.allocated + 1,
                ..with_player
            }));
        }
        match builder.add_links(context, relation, player, role_type) {
            Ok(()) => {},
            Err(error) => {
                proof {
                    lemma_players_conflict_extends(start, relation, players@, index + 1);
                }
                return Err(error);
            },
        }
        index += 1;
    }
    proof {
        assert(players@.take(index as int) =~= players@);
    }
    Ok(())
}

/// A conflict among the first players is the end of writing all of them.
proof fn lemma_players_conflict_extends(
    state: Translated,
    relation: Variable,
    players: Seq<RolePlayerPattern>,
    upto: int,
)
    requires
        0 <= upto <= players.len(),
        players_written(state, relation, players.take(upto)).conflict is Some,
    ensures
        players_written(state, relation, players) == players_written(
            state,
            relation,
            players.take(upto),
        ),
    decreases players.len() - upto,
{
    if upto < players.len() {
        let next = players.take(upto + 1);
        assert(next.drop_last() =~= players.take(upto));
        lemma_players_conflict_extends(state, relation, players, upto + 1);
    } else {
        assert(players.take(upto) =~= players);
    }
}

/// A conflict among the first deletables is the end of translating all of
/// them.
proof fn lemma_delete_conflict_extends(state: Translated, deletables: Seq<Deletable>, upto: int)
    requires
        0 <= upto <= deletables.len(),
        delete_translated(state, deletables.take(upto)).conflict is Some,
    ensures
        delete_translated(state, deletables) == delete_translated(state, deletables.take(upto)),
    decreases deletables.len() - upto,
{
    if upto < deletables.len() {
        let next = deletables.take(upto + 1);
        assert(next.drop_last() =~= deletables.take(upto));
        lemma_delete_conflict_extends(state, deletables, upto + 1);
    } else {
        assert(deletables.take(upto) =~= deletables);
    }
}

/// A conflict among the first statements is the end of translating all of
/// them.
proof fn lemma_insert_conflict_extends(state: Translated, statements: Seq<Statement>, upto: int)
    requires
        0 <= upto <= statements.len(),
        insert_translated(state, statements.take(upto)).conflict is Some,
    ensures
        insert_translated(state, statements) == insert_translated(state, statements.take(upto)),
    decreases statements.len() - upto,
{
    if upto < statements.len() {
        let next = statements.take(upto + 1);
        assert(next.drop_last() =~= statements.take(upto));
        lemma_insert_conflict_extends(state, statements, upto + 1);
    } else {
        assert(statements.take(upto) =~= statements);
    }
}

/// Translates a delete stage into the block of its constraints and the
/// variables of the concepts to delete.
///
/// The variables of the stage are registered as they come, each name once.
/// A `has` makes its owner an object and its attribute an attribute; a
/// `links` makes the relation a relation, each player an object and gives
/// each player a role of its own. The first conflict of categories ends the
/// translation with its error. The concepts to delete must go by names,
/// and the registry must have room for the variables of the stage.
pub fn translate_delete(context: &mut TranslationContext, delete: &Delete) -> (result: Result<
    (Block, Vec<Variable>),
    RepresentationError,
>)
    requires
        old(context).wf(),
        concepts_named(delete.deletables@),
        old(context).variable_registry.allocated() + delete_needs(delete.deletables@) <= u16::MAX,
    ensures
        final(context).wf(),
        final(context).variable_registry.optionality() == old(
            context,
        ).variable_registry.optionality(),
        match result {
            Ok((block, deleted_concepts)) => reached(
                *final(context),
                block.conjunction.constraints@,
                deleted_concepts@,
                None,
                delete_translated(
                    old(context).state(Seq::empty(), Seq::empty()),
                    delete.deletables@,
                ),
            ),
            Err(error) => reached(
                *final(context),
                delete_translated(
                    old(context).state(Seq::empty(), Seq::empty()),
                    delete.deletables@,
                ).constraints,
                delete_translated(
                    old(context).state(Seq::empty(), Seq::empty()),
                    delete.deletables@,
                ).deleted,
                Some(error),
                delete_translated(
                    old(context).state(Seq::empty(), Seq::empty()),
                    delete.deletables@,
                ),
            ),
        },
{
    let mut builder = BlockBuilder::new();
    let ghost start = builder.state(*context);
    let ghost first_free = context.variable_registry.allocated();
    let mut index: usize = 0;
    while index < delete.deletables.len()
        invariant
            index <= delete.deletables@.len(),
            context.wf(),
            start == old(context).state(Seq::empty(), Seq::empty()),
            first_free == old(context).variable_registry.allocated(),
            first_free + delete_needs(delete.deletables@) <= u16::MAX,
            concepts_named(delete.deletables@),
            context.variable_registry.allocated() <= first_free + delete_needs(
                delete.deletables@.take(index as int),
            ),
            context.variable_registry.optionality() == old(
                context,
            ).variable_registry.optionality(),
            builder.state(*context) == delete_translated(
                start,
                delete.deletables@.take(index as int),
            ),
        decreases delete.deletables@.len() - index,
    {
        proof {
            let upto = delete.deletables@.take(index + 1);
            assert(upto.drop_last() =~= delete.deletables@.take(index as int));
            assert(upto.last() == delete.deletables@[index as int]);
            lemma_delete_needs_prefix(delete.deletables@, index + 1);
        }
        let written = match &delete.deletables[index].kind {
            DeletableKind::Has { attribute, owner } => {
                let translated_owner = context.register_typeql_var(owner);
                let translated_attribute = context.register_typeql_var(attribute);
                builder.add_has(context, translated_owner, translated_attribute)
            },
            DeletableKind::Links { players, relation } => {
                let translated_relation = context.register_typeql_var(relation);
                add_typeql_relation(&mut builder, context, translated_relation, players)
            },
            DeletableKind::Concept { variable } => {
                let translated_variable = context.register_typeql_var(variable);
                builder.deleted.push(translated_variable);
                Ok(())
            },
        };
        if let Err(error) = written {
            proof {
                lemma_delete_conflict_extends(start, delete.deletables@, index + 1);
            }
            return Err(error);
        }
        index += 1;
    }
    proof {
        assert(delete.deletables@.take(index as int) =~= delete.deletables@);
    }
    let deleted_concepts = builder.deleted.clone();
    Ok((builder.finish(), deleted_concepts))
}

/// Translates an insert stage into the block of its constraints.
///
/// The variables of the stage are registered as they come, each name once.
/// An `isa` makes its thing a thing and its type a type; `has` and `links`
/// are written as in a delete stage. The first conflict of categories ends
/// the translation with its error. The registry must have room for the
/// variables of the stage.
pub fn translate_insert(context: &mut TranslationContext, insert: &Insert) -> (result: Result<
    Block,
    RepresentationError,
>)
    requires
        old(context).wf(),
        old(context).variable_registry.allocated() + insert_needs(insert.statements@) <= u16::MAX,
    ensures
        final(context).wf(),
        final(context).variable_registry.optionality() == old(
            context,
        ).variable_registry.optionality(),
        match result {
            Ok(block) => reached(
                *final(context),
                block.conjunction.constraints@,
                insert_translated(
                    old(context).state(Seq::empty(), Seq::empty()),
                    insert.statements@,
                ).deleted,
                None,
                insert_translated(
                    old(context).state(Seq::empty(), Seq::empty()),
                    insert.statements@,
                ),
            ),
            Err(error) => reached(
                *final(context),
                insert_translated(
                    old(context).state(Seq::empty(), Seq::empty()),
                    insert.statements@,
                ).constraints,
                insert_translated(
                    old(context).state(Seq::empty(), Seq::empty()),
                    insert.statements@,
                ).deleted,
                Some(error),
                insert_translated(
                    old(context).state(Seq::empty(), Seq::empty()),
                    insert.statements@,
                ),
            ),
        },
{
    let mut builder = BlockBuilder::new();
    let ghost start = builder.state(*context);
    let ghost first_free = context.variable_registry.allocated();
    let mut index: usize = 0;
    while index < insert.statements.len()
        invariant
            index <= insert.statements@.len(),
            context.wf(),
            start == old(context).state(Seq::empty(), Seq::empty()),
            first_free == old(context).variable_registry.allocated(),
            first_free + insert_needs(insert.statements@) <= u16::MAX,
            context.variable_registry.allocated() <= first_free + insert_needs(
                insert.statements@.take(index as int),
            ),
            context.variable_registry.optionality() == old(
                context,
            ).variable_registry.optionality(),
            builder.state(*context) == insert_translated(
                start,
                insert.statements@.take(index as int),
            ),
        decreases insert.statements@.len() - index,
    {
        proof {
            let upto = insert.statements@.take(index + 1);
            assert(upto.drop_last() =~= insert.statements@.take(index as int));
            assert(upto.last() == insert.statements@[index as int]);
            lemma_insert_needs_prefix(insert.statements@, index + 1);
        }
        let written = match &insert.statements[index] {
            Statement::Isa { thing, type_ } => {
                let translated_thing = context.register_typeql_var(thing);
                let translated_type = context.register_typeql_var(type_);
                builder.add_isa(context, translated_thing, translated_type)
            },
            Statement::Has { owner, attribute } => {
                let translated_owner = context.register_typeql_var(owner);
                let translated_attribute = context.register_typeql_var(attribute);
                builder.add_has(context, translated_owner, translated_attribute)
            },
            Statement::Links { relation, players } => {
                let translated_relation = context.register_typeql_var(relation);
                add_typeql_relation(&mut builder, context, translated_relation, players)
            },
        };
        if let Err(error) = written {
            proof {
                lemma_insert_conflict_extends(start, insert.statements@, index + 1);
            }
            return Err(error);
        }
        index += 1;
    }
    proof {
        assert(insert.statements@.take(index as int) =~= insert.statements@);
    }
    Ok(builder.finish())
}

} // verus!
