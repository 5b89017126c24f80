//! The abstract syntax tree: statements, records, plans, definitions,
//! portfolios and the value types they carry, together with their
//! mathematical views (strings become character sequences).

use vstd::prelude::*;
use crate::decimal::{Decimal, SignedDecimal, spec_dec_to_signed, dec_to_signed};
use crate::text::push_char;

verus! {

/// A pair (namespace, name); its canonical textual form is
/// `namespace:name`.
#[derive(Debug, PartialEq, Clone)]
pub struct Symbol {
    pub namespace: String,
    pub name: String,
}

/// The mathematical shape of a [`Symbol`].
pub struct SymbolV {
    pub namespace: Seq<char>,
    pub name: Seq<char>,
}

impl View for Symbol {
    type V = SymbolV;

    open spec fn view(&self) -> SymbolV {
        SymbolV { namespace: self.namespace@, name: self.name@ }
    }
}

/// The canonical textual form of a symbol: `namespace:name`.
pub open spec fn spec_symbol_text(s: SymbolV) -> Seq<char> {
    s.namespace + seq![':'] + s.name
}

impl Symbol {
    /// A symbol from its two segments.
    pub fn new(namespace: String, name: String) -> (r: Symbol)
        ensures
            r@.namespace == namespace@,
            r@.name == name@,
    {
        Symbol { namespace, name }
    }

    /// The canonical textual form `namespace:name`.
    pub fn to_string(&self) -> (r: String)
        ensures
            r@ == spec_symbol_text(self@),
    {
        let mut s = self.namespace.clone();
        push_char(&mut s, ':');
        s.append(self.name.as_str());
        proof {
            assert(s@ =~= spec_symbol_text(self@));
        }
        s
    }

    /// A field-by-field copy.
    pub fn duplicate(&self) -> (r: Symbol)
        ensures
            r@ == self@,
    {
        Symbol { namespace: self.namespace.clone(), name: self.name.clone() }
    }
}

/// The sign of a [`SignedAmount`].
#[derive(Debug, PartialEq, Eq, Structural, Clone, Copy)]
pub enum Sign {
    Positive,
    Negative,
}

/// A sign together with a non-negative magnitude. The numeric value is the
/// sign applied to the magnitude; an omitted sign token defaults to
/// positive.
#[derive(Debug, PartialEq, Eq, Structural, Clone, Copy)]
pub struct SignedAmount {
    pub sign: Sign,
    pub value: Decimal,
}

/// The signed value of a signed amount: the magnitude, negated for a
/// negative sign; `None` when the magnitude's mantissa does not fit `i128`.
pub open spec fn spec_signed_value(a: SignedAmount) -> Option<SignedDecimal> {
    match spec_dec_to_signed(a.value) {
        None => None,
        Some(d) => match a.sign {
            Sign::Positive => Some(d),
            Sign::Negative => Some(
                SignedDecimal { mantissa: (-d.mantissa) as i128, scale: d.scale },
            ),
        },
    }
}

impl SignedAmount {
    /// A signed amount from an explicit sign and a magnitude.
    pub fn new(sign: Sign, value: Decimal) -> (r: SignedAmount)
        ensures
            r == (SignedAmount { sign, value }),
    {
        SignedAmount { sign, value }
    }

    /// A positive amount.
    pub fn positive(value: Decimal) -> (r: SignedAmount)
        ensures
            r == (SignedAmount { sign: Sign::Positive, value }),
    {
        SignedAmount { sign: Sign::Positive, value }
    }

    /// A negative amount.
    pub fn negative(value: Decimal) -> (r: SignedAmount)
        ensures
            r == (SignedAmount { sign: Sign::Negative, value }),
    {
        SignedAmount { sign: Sign::Negative, value }
    }

    /// The signed value: the magnitude with the sign applied.
    pub fn to_signed_decimal(&self) -> (r: Option<SignedDecimal>)
        ensures
            r == spec_signed_value(*self),
    {
        match dec_to_signed(self.value) {
            None => None,
            Some(d) => match self.sign {
                Sign::Positive => Some(d),
                Sign::Negative => Some(
                    SignedDecimal { mantissa: -d.mantissa, scale: d.scale },
                ),
            },
        }
    }
}

/// What a record does: a trade flow or a valuation mark.
#[derive(Debug, PartialEq, Eq, Structural, Clone, Copy)]
pub enum Action {
    Trade,
    Mark,
}

/// The details of a trade record: traded symbol, signed amount, unit and an
/// optional execution price.
#[derive(Debug, PartialEq, Clone)]
pub struct TradeDetails {
    pub symbol: Symbol,
    pub signed_amount: SignedAmount,
    pub unit: String,
    pub price: Option<Decimal>,
}

/// The mathematical shape of [`TradeDetails`].
pub struct TradeDetailsV {
    pub symbol: SymbolV,
    pub signed_amount: SignedAmount,
    pub unit: Seq<char>,
    pub price: Option<Decimal>,
}

impl View for TradeDetails {
    type V = TradeDetailsV;

    open spec fn view(&self) -> TradeDetailsV {
        TradeDetailsV {
            symbol: self.symbol@,
            signed_amount: self.signed_amount,
            unit: self.unit@,
            price: self.price,
        }
    }
}

impl TradeDetails {
    /// A trade is a buy exactly when its sign is positive.
    pub fn buy(&self) -> (r: bool)
        ensures
            r == (self.signed_amount.sign == Sign::Positive),
    {
        self.signed_amount.sign == Sign::Positive
    }

    /// A trade is a sell exactly when its sign is negative.
    pub fn sell(&self) -> (r: bool)
        ensures
            r == (self.signed_amount.sign == Sign::Negative),
    {
        self.signed_amount.sign == Sign::Negative
    }

    /// A field-by-field copy.
    pub fn duplicate(&self) -> (r: TradeDetails)
        ensures
            r@ == self@,
    {
        TradeDetails {
            symbol: self.symbol.duplicate(),
            signed_amount: self.signed_amount,
            unit: self.unit.clone(),
            price: self.price,
        }
    }
}

/// The details of a mark record: an authoritative valuation snapshot for a
/// symbol, not a delta.
#[derive(Debug, PartialEq, Clone)]
pub struct MarkDetails {
    pub symbol: Symbol,
    pub value: Decimal,
    pub unit: String,
}

/// The mathematical shape of [`MarkDetails`].
pub struct MarkDetailsV {
    pub symbol: SymbolV,
    pub value: Decimal,
    pub unit: Seq<char>,
}

impl View for MarkDetails {
    type V = MarkDetailsV;

    open spec fn view(&self) -> MarkDetailsV {
        MarkDetailsV { symbol: self.symbol@, value: self.value, unit: self.unit@ }
    }
}

impl MarkDetails {
    /// A field-by-field copy.
    pub fn duplicate(&self) -> (r: MarkDetails)
        ensures
            r@ == self@,
    {
        MarkDetails {
            symbol: self.symbol.duplicate(),
            value: self.value,
            unit: self.unit.clone(),
        }
    }
}

/// Action-specific record details.
#[derive(Debug, PartialEq, Clone)]
pub enum Details {
    Trade(TradeDetails),
    Mark(MarkDetails),
}

/// The mathematical shape of [`Details`].
pub enum DetailsV {
    Trade(TradeDetailsV),
    Mark(MarkDetailsV),
}

impl View for Details {
    type V = DetailsV;

    open spec fn view(&self) -> DetailsV {
        match self {
            Details::Trade(t) => DetailsV::Trade(t@),
            Details::Mark(m) => DetailsV::Mark(m@),
        }
    }
}

/// The symbol a detail value speaks about.
pub open spec fn spec_details_symbol(d: DetailsV) -> SymbolV {
    match d {
        DetailsV::Trade(t) => t.symbol,
        DetailsV::Mark(m) => m.symbol,
    }
}

impl Details {
    /// The symbol these details speak about.
    pub fn get_symbol(&self) -> (r: &Symbol)
        ensures
            r@ == spec_details_symbol(self@),
    {
        match self {
            Details::Trade(trade) => &trade.symbol,
            Details::Mark(mark) => &mark.symbol,
        }
    }

    /// A field-by-field copy.
    pub fn duplicate(&self) -> (r: Details)
        ensures
            r@ == self@,
    {
        match self {
            Details::Trade(t) => Details::Trade(t.duplicate()),
            Details::Mark(m) => Details::Mark(m.duplicate()),
        }
    }
}

/// One dated financial event (trade or mark) about one symbol, with an
/// optional free-text note.
#[derive(Debug, PartialEq, Clone)]
pub struct Record {
    pub date: String,
    pub action: Action,
    pub details: Details,
    pub note: Option<String>,
}

/// The mathematical shape of a [`Record`].
pub struct RecordV {
    pub date: Seq<char>,
    pub action: Action,
    pub details: DetailsV,
    pub note: Option<Seq<char>>,
}

impl View for Record {
    type V = RecordV;

    open spec fn view(&self) -> RecordV {
        RecordV {
            date: self.date@,
            action: self.action,
            details: self.details@,
            note: match self.note {
                Some(ref n) => Some(n@),
                None => None,
            },
        }
    }
}

impl Record {
    /// A field-by-field copy.
    pub fn duplicate(&self) -> (r: Record)
        ensures
            r@ == self@,
    {
        Record {
            date: self.date.clone(),
            action: self.action,
            details: self.details.duplicate(),
            note: match &self.note {
                Some(n) => Some(n.clone()),
                None => None,
            },
        }
    }
}

/// How often a scheduled contribution recurs.
#[derive(Debug, PartialEq, Eq, Structural, Clone, Copy)]
pub enum Frequency {
    Daily,
    Weekly,
    Monthly,
    Quarterly,
    Yearly,
}

/// A recurring contribution: frequency, amount, unit and target symbol.
#[derive(Debug, PartialEq, Clone)]
pub struct Schedule {
    pub frequency: Frequency,
    pub amount: Decimal,
    pub unit: String,
    pub target: Symbol,
}

/// The mathematical shape of a [`Schedule`].
pub struct ScheduleV {
    pub frequency: Frequency,
    pub amount: Decimal,
    pub unit: Seq<char>,
    pub target: SymbolV,
}

impl View for Schedule {
    type V = ScheduleV;

    open spec fn view(&self) -> ScheduleV {
        ScheduleV {
            frequency: self.frequency,
            amount: self.amount,
            unit: self.unit@,
            target: self.target@,
        }
    }
}

/// One rule inside a plan.
#[derive(Debug, PartialEq, Clone)]
pub enum PlanRule {
    Schedule(Schedule),
    StartDate(String),
    EndDate(String),
}

/// The mathematical shape of a [`PlanRule`].
pub enum PlanRuleV {
    Schedule(ScheduleV),
    StartDate(Seq<char>),
    EndDate(Seq<char>),
}

impl View for PlanRule {
    type V = PlanRuleV;

    open spec fn view(&self) -> PlanRuleV {
        match self {
            PlanRule::Schedule(s) => PlanRuleV::Schedule(s@),
            PlanRule::StartDate(d) => PlanRuleV::StartDate(d@),
            PlanRule::EndDate(d) => PlanRuleV::EndDate(d@),
        }
    }
}

/// A named, ordered list of plan rules. Plans are stored but deliberately
/// produce no evaluator side effect.
#[derive(Debug, PartialEq, Clone)]
pub struct Plan {
    pub name: String,
    pub rules: Vec<PlanRule>,
}

/// The mathematical shape of a [`Plan`].
pub struct PlanV {
    pub name: Seq<char>,
    pub rules: Seq<PlanRuleV>,
}

impl View for Plan {
    type V = PlanV;

    open spec fn view(&self) -> PlanV {
        PlanV { name: self.name@, rules: self.rules@.map_values(|r: PlanRule| r@) }
    }
}

/// Associates a symbol with an optional human alias and an optional target
/// annual return.
#[derive(Debug, PartialEq, Clone)]
pub struct Define {
    pub symbol: Symbol,
    pub alias: Option<String>,
    pub target_return: Option<Decimal>,
}

/// The mathematical shape of a [`Define`].
pub struct DefineV {
    pub symbol: SymbolV,
    pub alias: Option<Seq<char>>,
    pub target_return: Option<Decimal>,
}

impl View for Define {
    type V = DefineV;

    open spec fn view(&self) -> DefineV {
        DefineV {
            symbol: self.symbol@,
            alias: match self.alias {
                Some(ref a) => Some(a@),
                None => None,
            },
            target_return: self.target_return,
        }
    }
}

/// A named group of member symbols with an optional target return.
#[derive(Debug, PartialEq, Clone)]
pub struct Portfolio {
    pub name: String,
    pub assets: Vec<Symbol>,
    pub target_return: Option<Decimal>,
}

/// The mathematical shape of a [`Portfolio`] statement.
pub struct PortfolioV {
    pub name: Seq<char>,
    pub assets: Seq<SymbolV>,
    pub target_return: Option<Decimal>,
}

impl View for Portfolio {
    type V = PortfolioV;

    open spec fn view(&self) -> PortfolioV {
        PortfolioV {
            name: self.name@,
            assets: self.assets@.map_values(|s: Symbol| s@),
            target_return: self.target_return,
        }
    }
}

/// One statement of a program.
#[derive(Debug, PartialEq, Clone)]
pub enum Statement {
    Record(Record),
    Plan(Plan),
    Define(Define),
    Portfolio(Portfolio),
}

/// The mathematical shape of a [`Statement`].
pub enum StatementV {
    Record(RecordV),
    Plan(PlanV),
    Define(DefineV),
    Portfolio(PortfolioV),
}

impl View for Statement {
    type V = StatementV;

    open spec fn view(&self) -> StatementV {
        match self {
            Statement::Record(r) => StatementV::Record(r@),
            Statement::Plan(p) => StatementV::Plan(p@),
            Statement::Define(d) => StatementV::Define(d@),
            Statement::Portfolio(p) => StatementV::Portfolio(p@),
        }
    }
}

/// An ordered sequence of statements. The order of record statements as
/// authored is not assumed to be chronological.
#[derive(Debug, PartialEq, Clone)]
pub struct Program {
    pub statements: Vec<Statement>,
}

impl View for Program {
    type V = Seq<StatementV>;

    open spec fn view(&self) -> Seq<StatementV> {
        self.statements@.map_values(|s: Statement| s@)
    }
}

impl Program {
    /// The empty program.
    pub fn new() -> (r: Program)
        ensures
            r@ =~= Seq::<StatementV>::empty(),
    {
        Program { statements: Vec::new() }
    }

    /// Appends one statement at the end.
    pub fn add_statement(&mut self, statement: Statement)
        ensures
            final(self)@ =~= old(self)@.push(statement@),
    {
        self.statements.push(statement);
    }
}

impl Default for Program {
    /// The empty program.
    fn default() -> (r: Program)
        ensures
            r@ =~= Seq::<StatementV>::empty(),
    {
        Program::new()
    }
}

} // verus!
