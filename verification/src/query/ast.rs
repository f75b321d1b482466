//! The syntax tree of the query language.
//!
//! Every node owns its children. Each type comes with a mathematical
//! counterpart, its model, in which a string is a sequence of characters
//! and a vector a sequence; the contracts of the grammar and of the
//! printer speak of the models.

use vstd::prelude::*;
use crate::position::Pos;
use crate::common::{
    Directive, Type, Value, DirectiveModel, TypeModel, ValueModel, pairs_view, directives_view,
    clone_pairs, clone_directives,
};

verus! {

/// A document: one definition or more.
#[derive(Debug, PartialEq)]
pub struct Document {
    pub definitions: Vec<Definition>,
}

#[derive(Debug, PartialEq)]
pub enum Definition {
    Operation(OperationDefinition),
    Fragment(FragmentDefinition),
}

#[derive(Debug, PartialEq)]
pub struct FragmentDefinition {
    pub position: Pos,
    pub name: String,
    pub type_condition: TypeCondition,
    pub directives: Vec<Directive>,
    pub selection_set: SelectionSet,
}

#[derive(Debug, PartialEq)]
pub enum OperationDefinition {
    /// A query in its short form: only a selection set.
    SelectionSet(SelectionSet),
    Query(Query),
    Mutation(Mutation),
    Subscription(Subscription),
}

#[derive(Debug, PartialEq)]
pub struct Query {
    pub position: Pos,
    pub name: Option<String>,
    pub variable_definitions: Vec<VariableDefinition>,
    pub directives: Vec<Directive>,
    pub selection_set: SelectionSet,
}

#[derive(Debug, PartialEq)]
pub struct Mutation {
    pub position: Pos,
    pub name: Option<String>,
    pub variable_definitions: Vec<VariableDefinition>,
    pub directives: Vec<Directive>,
    pub selection_set: SelectionSet,
}

#[derive(Debug, PartialEq)]
pub struct Subscription {
    pub position: Pos,
    pub name: Option<String>,
    pub variable_definitions: Vec<VariableDefinition>,
    pub directives: Vec<Directive>,
    pub selection_set: SelectionSet,
}

/// The selections between two braces. `span` holds the positions of the
/// two braces.
#[derive(Debug, PartialEq)]
pub struct SelectionSet {
    pub span: (Pos, Pos),
    pub items: Vec<Selection>,
}

#[derive(Debug, PartialEq)]
pub struct VariableDefinition {
    pub position: Pos,
    pub name: String,
    pub var_type: Type,
    pub default_value: Option<Value>,
}

#[derive(Debug, PartialEq)]
pub enum Selection {
    Field(Field),
    FragmentSpread(FragmentSpread),
    InlineFragment(InlineFragment),
}

/// A field. One without a selection set of its own has an empty one,
/// whose span is twice the field's position.
#[derive(Debug, PartialEq)]
pub struct Field {
    pub position: Pos,
    pub alias: Option<String>,
    pub name: String,
    pub arguments: Vec<(String, Value)>,
    pub directives: Vec<Directive>,
    pub selection_set: SelectionSet,
}

#[derive(Debug, PartialEq)]
pub struct FragmentSpread {
    pub position: Pos,
    pub fragment_name: String,
    pub directives: Vec<Directive>,
}

#[derive(Debug, PartialEq)]
pub enum TypeCondition {
    On(String),
}

#[derive(Debug, PartialEq)]
pub struct InlineFragment {
    pub position: Pos,
    pub type_condition: Option<TypeCondition>,
    pub directives: Vec<Directive>,
    pub selection_set: SelectionSet,
}

/// The model of [`Document`].
pub struct DocumentModel {
    pub definitions: Seq<DefinitionModel>,
}

/// The model of [`Definition`].
pub enum DefinitionModel {
    Operation(OperationDefinitionModel),
    Fragment(FragmentDefinitionModel),
}

/// The model of [`FragmentDefinition`].
pub struct FragmentDefinitionModel {
    pub position: Pos,
    pub name: Seq<char>,
    pub type_condition: Seq<char>,
    pub directives: Seq<DirectiveModel>,
    pub selection_set: SelectionSetModel,
}

/// The model of [`OperationDefinition`].
pub enum OperationDefinitionModel {
    SelectionSet(SelectionSetModel),
    Query(OperationModel),
    Mutation(OperationModel),
    Subscription(OperationModel),
}

/// The model of [`Query`], of [`Mutation`] and of [`Subscription`].
pub struct OperationModel {
    pub position: Pos,
    pub name: Option<Seq<char>>,
    pub variable_definitions: Seq<VariableDefinitionModel>,
    pub directives: Seq<DirectiveModel>,
    pub selection_set: SelectionSetModel,
}

/// The model of [`SelectionSet`].
pub struct SelectionSetModel {
    pub span: (Pos, Pos),
    pub items: Seq<SelectionModel>,
}

/// The model of [`VariableDefinition`].
pub struct VariableDefinitionModel {
    pub position: Pos,
    pub name: Seq<char>,
    pub var_type: TypeModel,
    pub default_value: Option<ValueModel>,
}

/// The model of [`Selection`].
pub enum SelectionModel {
    Field(FieldModel),
    FragmentSpread(FragmentSpreadModel),
    InlineFragment(InlineFragmentModel),
}

/// The model of [`Field`].
pub struct FieldModel {
    pub position: Pos,
    pub alias: Option<Seq<char>>,
    pub name: Seq<char>,
    pub arguments: Seq<(Seq<char>, ValueModel)>,
    pub directives: Seq<DirectiveModel>,
    pub selection_set: SelectionSetModel,
}

/// The model of [`FragmentSpread`].
pub struct FragmentSpreadModel {
    pub position: Pos,
    pub fragment_name: Seq<char>,
    pub directives: Seq<DirectiveModel>,
}

/// The model of [`InlineFragment`].
pub struct InlineFragmentModel {
    pub position: Pos,
    pub type_condition: Option<Seq<char>>,
    pub directives: Seq<DirectiveModel>,
    pub selection_set: SelectionSetModel,
}

/// The text of an optional string.
pub open spec fn text_view(s: Option<String>) -> Option<Seq<char>> {
    match s {
        Some(s) => Some(s@),
        None => None,
    }
}

/// The model of a selection set.
pub open spec fn selection_set_model(s: SelectionSet) -> SelectionSetModel
    decreases s,
{
    SelectionSetModel { span: s.span, items: selections_view(s.items@) }
}

/// The models of a sequence of selections.
pub open spec fn selections_view(v: Seq<Selection>) -> Seq<SelectionModel>
    decreases v,
{
    Seq::new(
        v.len(),
        |i: int|
            if 0 <= i < v.len() {
                selection_model(v[i])
            } else {
                SelectionModel::FragmentSpread(
                    FragmentSpreadModel {
                        position: Pos { line: 0, column: 0 },
                        fragment_name: Seq::empty(),
                        directives: Seq::empty(),
                    },
                )
            },
    )
}

/// The model of a selection.
pub open spec fn selection_model(s: Selection) -> SelectionModel
    decreases s,
{
    match s {
        Selection::Field(f) => SelectionModel::Field(
            FieldModel {
                position: f.position,
                alias: text_view(f.alias),
                name: f.name@,
                arguments: pairs_view(f.arguments@),
                directives: directives_view(f.directives@),
                selection_set: selection_set_model(f.selection_set),
            },
        ),
        Selection::FragmentSpread(f) => SelectionModel::FragmentSpread(
            FragmentSpreadModel {
                position: f.position,
                fragment_name: f.fragment_name@,
                directives: directives_view(f.directives@),
            },
        ),
        Selection::InlineFragment(f) => SelectionModel::InlineFragment(
            InlineFragmentModel {
                position: f.position,
                type_condition: match f.type_condition {
                    Some(TypeCondition::On(name)) => Some(name@),
                    None => None,
                },
                directives: directives_view(f.directives@),
                selection_set: selection_set_model(f.selection_set),
            },
        ),
    }
}

impl View for SelectionSet {
    type V = SelectionSetModel;

    open spec fn view(&self) -> SelectionSetModel {
        selection_set_model(*self)
    }
}

impl View for Selection {
    type V = SelectionModel;

    open spec fn view(&self) -> SelectionModel {
        selection_model(*self)
    }
}

impl View for Field {
    type V = FieldModel;

    open spec fn view(&self) -> FieldModel {
        FieldModel {
            position: self.position,
            alias: text_view(self.alias),
            name: self.name@,
            arguments: pairs_view(self.arguments@),
            directives: directives_view(self.directives@),
            selection_set: self.selection_set@,
        }
    }
}

impl View for FragmentSpread {
    type V = FragmentSpreadModel;

    open spec fn view(&self) -> FragmentSpreadModel {
        FragmentSpreadModel {
            position: self.position,
            fragment_name: self.fragment_name@,
            directives: directives_view(self.directives@),
        }
    }
}

impl View for TypeCondition {
    type V = Seq<char>;

    open spec fn view(&self) -> Seq<char> {
        match self {
            TypeCondition::On(name) => name@,
        }
    }
}

impl View for InlineFragment {
    type V = InlineFragmentModel;

    open spec fn view(&self) -> InlineFragmentModel {
        InlineFragmentModel {
            position: self.position,
            type_condition: match self.type_condition {
                Some(TypeCondition::On(name)) => Some(name@),
                None => None,
            },
            directives: directives_view(self.directives@),
            selection_set: self.selection_set@,
        }
    }
}

impl View for VariableDefinition {
    type V = VariableDefinitionModel;

    open spec fn view(&self) -> VariableDefinitionModel {
        VariableDefinitionModel {
            position: self.position,
            name: self.name@,
            var_type: self.var_type@,
            default_value: match self.default_value {
                Some(v) => Some(v@),
                None => None,
            },
        }
    }
}

/// The models of a sequence of variable definitions.
pub open spec fn variables_view(v: Seq<VariableDefinition>) -> Seq<VariableDefinitionModel> {
    v.map_values(|d: VariableDefinition| d@)
}

impl View for Query {
    type V = OperationModel;

    open spec fn view(&self) -> OperationModel {
        OperationModel {
            position: self.position,
            name: text_view(self.name),
            variable_definitions: variables_view(self.variable_definitions@),
            directives: directives_view(self.directives@),
            selection_set: self.selection_set@,
        }
    }
}

impl View for Mutation {
    type V = OperationModel;

    open spec fn view(&self) -> OperationModel {
        OperationModel {
            position: self.position,
            name: text_view(self.name),
            variable_definitions: variables_view(self.variable_definitions@),
            directives: directives_view(self.directives@),
            selection_set: self.selection_set@,
        }
    }
}

impl View for Subscription {
    type V = OperationModel;

    open spec fn view(&self) -> OperationModel {
        OperationModel {
            position: self.position,
            name: text_view(self.name),
            variable_definitions: variables_view(self.variable_definitions@),
            directives: directives_view(self.directives@),
            selection_set: self.selection_set@,
        }
    }
}

impl View for OperationDefinition {
    type V = OperationDefinitionModel;

    open spec fn view(&self) -> OperationDefinitionModel {
        match self {
            OperationDefinition::SelectionSet(s) => OperationDefinitionModel::SelectionSet(s@),
            OperationDefinition::Query(q) => OperationDefinitionModel::Query(q@),
            OperationDefinition::Mutation(m) => OperationDefinitionModel::Mutation(m@),
            OperationDefinition::Subscription(s) => OperationDefinitionModel::Subscription(s@),
        }
    }
}

impl View for FragmentDefinition {
    type V = FragmentDefinitionModel;

    open spec fn view(&self) -> FragmentDefinitionModel {
        FragmentDefinitionModel {
            position: self.position,
            name: self.name@,
            type_condition: self.type_condition@,
            directives: directives_view(self.directives@),
            selection_set: self.selection_set@,
        }
    }
}

impl View for Definition {
    type V = DefinitionModel;

    open spec fn view(&self) -> DefinitionModel {
        match self {
            Definition::Operation(o) => DefinitionModel::Operation(o@),
            Definition::Fragment(f) => DefinitionModel::Fragment(f@),
        }
    }
}

/// The models of a sequence of definitions.
pub open spec fn definitions_view(v: Seq<Definition>) -> Seq<DefinitionModel> {
    v.map_values(|d: Definition| d@)
}

impl View for Document {
    type V = DocumentModel;

    open spec fn view(&self) -> DocumentModel {
        DocumentModel { definitions: definitions_view(self.definitions@) }
    }
}

/// A copy of an optional string.
pub fn clone_text(s: &Option<String>) -> (copy: Option<String>)
    ensures
        text_view(copy) == text_view(*s),
{
    match s {
        Some(s) => Some(s.clone()),
        None => None,
    }
}

/// A copy of a list of selections.
#[verifier::loop_isolation(false)]
pub fn clone_selections(items: &Vec<Selection>) -> (copy: Vec<Selection>)
    ensures
        selections_view(copy@) == selections_view(items@),
    decreases items,
{
    let mut copy: Vec<Selection> = Vec::new();
    let mut i: usize = 0;
    while i < items.len()
        invariant
            i <= items@.len(),
            copy@.len() == i,
            forall|k: int| 0 <= k < i ==> (#[trigger] copy@[k])@ == items@[k]@,
        decreases items@.len() - i,
    {
        let s = clone_selection(&items[i]);
        copy.push(s);
        i += 1;
    }
    assert(selections_view(copy@) =~= selections_view(items@));
    copy
}

/// A copy of a selection.
pub fn clone_selection(s: &Selection) -> (copy: Selection)
    ensures
        copy@ == s@,
    decreases s,
{
    match s {
        Selection::Field(f) => Selection::Field(
            Field {
                position: f.position,
                alias: clone_text(&f.alias),
                name: f.name.clone(),
                arguments: clone_pairs(&f.arguments),
                directives: clone_directives(&f.directives),
                selection_set: SelectionSet {
                    span: f.selection_set.span,
                    items: clone_selections(&f.selection_set.items),
                },
            },
        ),
        Selection::FragmentSpread(f) => Selection::FragmentSpread(
            FragmentSpread {
                position: f.position,
                fragment_name: f.fragment_name.clone(),
                directives: clone_directives(&f.directives),
            },
        ),
        Selection::InlineFragment(f) => Selection::InlineFragment(
            InlineFragment {
                position: f.position,
                type_condition: match &f.type_condition {
                    Some(TypeCondition::On(name)) => Some(TypeCondition::On(name.clone())),
                    None => None,
                },
                directives: clone_directives(&f.directives),
                selection_set: SelectionSet {
                    span: f.selection_set.span,
                    items: clone_selections(&f.selection_set.items),
                },
            },
        ),
    }
}

impl Clone for Selection {
    /// A copy of the selection.
    fn clone(&self) -> (copy: Self)
        ensures
            copy@ == self@,
    {
        clone_selection(self)
    }
}

impl Clone for SelectionSet {
    /// A copy of the selection set.
    fn clone(&self) -> (copy: Self)
        ensures
            copy@ == self@,
    {
        SelectionSet { span: self.span, items: clone_selections(&self.items) }
    }
}

impl Clone for Field {
    /// A copy of the field.
    fn clone(&self) -> (copy: Self)
        ensures
            copy@ == self@,
    {
        Field {
            position: self.position,
            alias: clone_text(&self.alias),
            name: self.name.clone(),
            arguments: clone_pairs(&self.arguments),
            directives: clone_directives(&self.directives),
            selection_set: self.selection_set.clone(),
        }
    }
}

impl Clone for FragmentSpread {
    /// A copy of the fragment spread.
    fn clone(&self) -> (copy: Self)
        ensures
            copy@ == self@,
    {
        FragmentSpread {
            position: self.position,
            fragment_name: self.fragment_name.clone(),
            directives: clone_directives(&self.directives),
        }
    }
}

impl Clone for TypeCondition {
    /// A copy of the type condition.
    fn clone(&self) -> (copy: Self)
        ensures
            copy@ == self@,
    {
        match self {
            TypeCondition::On(name) => TypeCondition::On(name.clone()),
        }
    }
}

impl Clone for InlineFragment {
    /// A copy of the inline fragment.
    fn clone(&self) -> (copy: Self)
        ensures
            copy@ == self@,
    {
        InlineFragment {
            position: self.position,
            type_condition: match &self.type_condition {
                Some(TypeCondition::On(name)) => Some(TypeCondition::On(name.clone())),
                None => None,
            },
            directives: clone_directives(&self.directives),
            selection_set: self.selection_set.clone(),
        }
    }
}

impl Clone for VariableDefinition {
    /// A copy of the definition.
    fn clone(&self) -> (copy: Self)
        ensures
            copy@ == self@,
    {
        VariableDefinition {
            position: self.position,
            name: self.name.clone(),
            var_type: self.var_type.clone(),
            default_value: match &self.default_value {
                Some(v) => Some(v.clone()),
                None => None,
            },
        }
    }
}

/// A copy of a list of definitions of variables.
pub fn clone_variables(list: &Vec<VariableDefinition>) -> (copy: Vec<VariableDefinition>)
    ensures
        variables_view(copy@) == variables_view(list@),
{
    let mut copy: Vec<VariableDefinition> = Vec::new();
    let mut i: usize = 0;
    while i < list.len()
        invariant
            i <= list@.len(),
            copy@.len() == i,
            forall|k: int| 0 <= k < i ==> (#[trigger] copy@[k])@ == list@[k]@,
        decreases list@.len() - i,
    {
        let d = list[i].clone();
        copy.push(d);
        i += 1;
    }
    assert(variables_view(copy@) =~= variables_view(list@));
    copy
}

impl Clone for Query {
    /// A copy of the query.
    fn clone(&self) -> (copy: Self)
        ensures
            copy@ == self@,
    {
        Query {
            position: self.position,
            name: clone_text(&self.name),
            variable_definitions: clone_variables(&self.variable_definitions),
            directives: clone_directives(&self.directives),
            selection_set: self.selection_set.clone(),
        }
    }
}

impl Clone for Mutation {
    /// A copy of the mutation.
    fn clone(&self) -> (copy: Self)
        ensures
            copy@ == self@,
    {
        Mutation {
            position: self.position,
            name: clone_text(&self.name),
            variable_definitions: clone_variables(&self.variable_definitions),
            directives: clone_directives(&self.directives),
            selection_set: self.selection_set.clone(),
        }
    }
}

impl Clone for Subscription {
    /// A copy of the subscription.
    fn clone(&self) -> (copy: Self)
        ensures
            copy@ == self@,
    {
        Subscription {
            position: self.position,
            name: clone_text(&self.name),
            variable_definitions: clone_variables(&self.variable_definitions),
            directives: clone_directives(&self.directives),
            selection_set: self.selection_set.clone(),
        }
    }
}

impl Clone for OperationDefinition {
    /// A copy of the definition.
    fn clone(&self) -> (copy: Self)
        ensures
            copy@ == self@,
    {
        match self {
            OperationDefinition::SelectionSet(s) => OperationDefinition::SelectionSet(s.clone()),
            OperationDefinition::Query(q) => OperationDefinition::Query(q.clone()),
            OperationDefinition::Mutation(m) => OperationDefinition::Mutation(m.clone()),
            OperationDefinition::Subscription(s) => OperationDefinition::Subscription(s.clone()),
        }
    }
}

impl Clone for FragmentDefinition {
    /// A copy of the definition.
    fn clone(&self) -> (copy: Self)
        ensures
            copy@ == self@,
    {
        FragmentDefinition {
            position: self.position,
            name: self.name.clone(),
            type_condition: self.type_condition.clone(),
            directives: clone_directives(&self.directives),
            selection_set: self.selection_set.clone(),
        }
    }
}

impl Clone for Definition {
    /// A copy of the definition.
    fn clone(&self) -> (copy: Self)
        ensures
            copy@ == self@,
    {
        match self {
            Definition::Operation(o) => Definition::Operation(o.clone()),
            Definition::Fragment(f) => Definition::Fragment(f.clone()),
        }
    }
}

impl Clone for Document {
    /// A copy of the document.
    fn clone(&self) -> (copy: Self)
        ensures
            copy@ == self@,
    {
        let mut copy: Vec<Definition> = Vec::new();
        let mut i: usize = 0;
        while i < self.definitions.len()
            invariant
                i <= self.definitions@.len(),
                copy@.len() == i,
                forall|k: int| 0 <= k < i ==> (#[trigger] copy@[k])@ == self.definitions@[k]@,
            decreases self.definitions@.len() - i,
        {
            let d = self.definitions[i].clone();
            copy.push(d);
            i += 1;
        }
        assert(definitions_view(copy@) =~= definitions_view(self.definitions@));
        Document { definitions: copy }
    }
}

/// The fields of the first `n` selections, each before the fields of
/// its own selection set, and with the fields of the inline fragments
/// among them; the fields of fragments that are spread are not among
/// them.
pub open spec fn fields_within(items: Seq<SelectionModel>, n: nat) -> Seq<FieldModel>
    decreases items, n,
{
    if n == 0 || n > items.len() {
        Seq::empty()
    } else {
        fields_within(items, (n - 1) as nat) + (match items[n - 1] {
            SelectionModel::Field(f) => seq![f] + fields_within(
                f.selection_set.items,
                f.selection_set.items.len(),
            ),
            SelectionModel::FragmentSpread(_) => Seq::empty(),
            SelectionModel::InlineFragment(f) => fields_within(
                f.selection_set.items,
                f.selection_set.items.len(),
            ),
        })
    }
}

/// The selection set of a definition.
pub open spec fn selections_of_definition(d: DefinitionModel) -> Seq<SelectionModel> {
    match d {
        DefinitionModel::Operation(OperationDefinitionModel::SelectionSet(s)) => s.items,
        DefinitionModel::Operation(OperationDefinitionModel::Query(o)) => o.selection_set.items,
        DefinitionModel::Operation(OperationDefinitionModel::Mutation(o)) => o.selection_set.items,
        DefinitionModel::Operation(OperationDefinitionModel::Subscription(o)) =>
            o.selection_set.items,
        DefinitionModel::Fragment(f) => f.selection_set.items,
    }
}

/// The fields of the first `n` definitions of a document.
pub open spec fn fields_of_definitions(definitions: Seq<DefinitionModel>, n: nat) -> Seq<
    FieldModel,
>
    decreases n,
{
    if n == 0 || n > definitions.len() {
        Seq::empty()
    } else {
        fields_of_definitions(definitions, (n - 1) as nat) + fields_within(
            selections_of_definition(definitions[n - 1]),
            selections_of_definition(definitions[n - 1]).len(),
        )
    }
}

/// The models of a list of fields.
pub open spec fn field_refs_view(v: Seq<&Field>) -> Seq<FieldModel> {
    v.map_values(|f: &Field| f@)
}

/// Adds the fields of the selections `items` to `out`.
#[verifier::loop_isolation(false)]
fn collect_fields<'a>(items: &'a Vec<Selection>, out: &mut Vec<&'a Field>)
    ensures
        field_refs_view(final(out)@) == field_refs_view(old(out)@) + fields_within(
            selections_view(items@),
            items@.len(),
        ),
    decreases items,
{
    let ghost ss = selections_view(items@);
    let ghost start = field_refs_view(out@);
    let mut i: usize = 0;
    assert(field_refs_view(out@) =~= start + fields_within(ss, 0));
    while i < items.len()
        invariant
            i <= items@.len(),
            field_refs_view(out@) == start + fields_within(ss, i as nat),
        decreases items@.len() - i,
    {
        let ghost before = field_refs_view(out@);
        assert(ss[i as int] == items@[i as int]@);
        match &items[i] {
            Selection::Field(f) => {
                out.push(f);
                assert(field_refs_view(out@) =~= before + seq![f@]);
                collect_fields(&f.selection_set.items, out);
                assert(field_refs_view(out@) =~= before + (seq![f@] + fields_within(
                    f@.selection_set.items,
                    f@.selection_set.items.len(),
                )));
            },
            Selection::FragmentSpread(_) => {
                assert(field_refs_view(out@) =~= before + Seq::<FieldModel>::empty());
            },
            Selection::InlineFragment(f) => {
                collect_fields(&f.selection_set.items, out);
            },
        }
        assert(field_refs_view(out@) =~= start + fields_within(ss, (i + 1) as nat));
        i += 1;
    }
}

impl SelectionSet {
    /// The fields of the selection set, each before the fields of its
    /// own selection set: those that a walk through the selection set
    /// visits, which goes into fields and inline fragments and passes
    /// by the fragments that are spread.
    pub fn fields<'a>(&'a self) -> (list: Vec<&'a Field>)
        ensures
            field_refs_view(list@) == fields_within(self@.items, self@.items.len()),
    {
        let mut list: Vec<&'a Field> = Vec::new();
        assert(field_refs_view(list@) =~= Seq::<FieldModel>::empty());
        collect_fields(&self.items, &mut list);
        assert(Seq::<FieldModel>::empty() + fields_within(self@.items, self@.items.len())
            =~= fields_within(self@.items, self@.items.len()));
        list
    }
}

impl Document {
    /// The fields of the document: those of its definitions, one
    /// definition after the other.
    pub fn fields<'a>(&'a self) -> (list: Vec<&'a Field>)
        ensures
            field_refs_view(list@) == fields_of_definitions(
                self@.definitions,
                self@.definitions.len(),
            ),
    {
        let ghost ds = definitions_view(self.definitions@);
        let mut list: Vec<&'a Field> = Vec::new();
        assert(field_refs_view(list@) =~= fields_of_definitions(ds, 0));
        let mut i: usize = 0;
        while i < self.definitions.len()
            invariant
                i <= self.definitions@.len(),
                ds == definitions_view(self.definitions@),
                field_refs_view(list@) == fields_of_definitions(ds, i as nat),
            decreases self.definitions@.len() - i,
        {
            assert(ds[i as int] == self.definitions@[i as int]@);
            let items = match &self.definitions[i] {
                Definition::Operation(OperationDefinition::SelectionSet(s)) => &s.items,
                Definition::Operation(OperationDefinition::Query(o)) => &o.selection_set.items,
                Definition::Operation(OperationDefinition::Mutation(o)) => &o.selection_set.items,
                Definition::Operation(OperationDefinition::Subscription(o)) =>
                    &o.selection_set.items,
                Definition::Fragment(f) => &f.selection_set.items,
            };
            collect_fields(items, &mut list);
            i += 1;
        }
        list
    }
}

} // verus!
