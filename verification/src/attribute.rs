//! What the attribute of an asynchronous test asks for.

use proc_macro2::{Ident, Span};
use syn::parse::Parser;
use syn::punctuated::Punctuated;
use syn::token::Comma;
use syn::{Expr, ItemFn, Lit, LitInt, LitStr, Meta};
use vstd::prelude::*;

verus! {

/// Appends to a string.
///
/// [String::push_str] of the standard library: "Appends a given string slice onto the end of this
/// `String`."
pub assume_specification[ String::push_str ](s: &mut String, string: &str)
    ensures
        final(s)@ == old(s)@ + string@,
;

/// A literal.
pub enum Literal {
    /// A string: the token and the value of the literal.
    Str(String, String),
    /// An integer: the digits of its value in base ten.
    Int(String),
    /// Any other literal.
    Other,
}

/// What a [Literal] is.
#[verifier::ext_equal]
pub enum LiteralView {
    Str(Seq<char>, Seq<char>),
    Int(Seq<char>),
    Other,
}

impl View for Literal {
    type V = LiteralView;

    open spec fn view(&self) -> LiteralView {
        match self {
            Literal::Str(token, value) => LiteralView::Str(token@, value@),
            Literal::Int(digits) => LiteralView::Int(digits@),
            Literal::Other => LiteralView::Other,
        }
    }
}

/// An argument of an attribute.
pub enum Argument {
    /// A name and its value. There is no name if the path is not an identifier, and no literal if the
    /// value is some other expression.
    NameValue(Option<String>, Option<Literal>),
    /// Any other argument.
    Other,
}

/// What an [Argument] is.
#[verifier::ext_equal]
pub enum ArgumentView {
    NameValue(Option<Seq<char>>, Option<LiteralView>),
    Other,
}

impl View for Argument {
    type V = ArgumentView;

    open spec fn view(&self) -> ArgumentView {
        match self {
            Argument::NameValue(name, literal) => ArgumentView::NameValue(
                match name {
                    Some(name) => Some(name@),
                    None => None,
                },
                match literal {
                    Some(literal) => Some(literal@),
                    None => None,
                },
            ),
            Argument::Other => ArgumentView::Other,
        }
    }
}

/// What arguments are.
pub open spec fn views(args: Seq<Argument>) -> Seq<ArgumentView> {
    args.map_values(|arg: Argument| arg@)
}

/// What an optional string is.
pub open spec fn text_of(text: Option<String>) -> Option<Seq<char>> {
    match text {
        Some(text) => Some(text@),
        None => None,
    }
}

/// A segment of a path.
pub struct Segment {
    pub ident: String,
    /// Whether it has no arguments.
    pub plain: bool,
}

/// A path.
pub struct Path {
    pub leading_colon: bool,
    pub segments: Vec<Segment>,
}

/// What a [Segment] is.
#[verifier::ext_equal]
pub struct SegmentView {
    pub ident: Seq<char>,
    pub plain: bool,
}

/// What a [Path] is.
#[verifier::ext_equal]
pub struct PathView {
    pub leading_colon: bool,
    pub segments: Seq<SegmentView>,
}

impl View for Segment {
    type V = SegmentView;

    open spec fn view(&self) -> SegmentView {
        SegmentView { ident: self.ident@, plain: self.plain }
    }
}

impl View for Path {
    type V = PathView;

    open spec fn view(&self) -> PathView {
        PathView {
            leading_colon: self.leading_colon,
            segments: self.segments@.map_values(|segment: Segment| segment@),
        }
    }
}

/// What an optional path is.
pub open spec fn path_of(path: Option<Path>) -> Option<PathView> {
    match path {
        Some(path) => Some(path@),
        None => None,
    }
}

impl PathView {
    /// The identifier that the path is: it has no leading colon, and one segment without arguments.
    pub open spec fn ident(self) -> Option<Seq<char>> {
        if !self.leading_colon && self.segments.len() == 1 && self.segments[0].plain {
            Some(self.segments[0].ident)
        } else {
            None
        }
    }
}

impl Path {
    /// The identifier that the path is, if it is one.
    pub fn get_ident(&self) -> (ident: Option<String>)
        ensures
            text_of(ident) == self@.ident(),
    {
        if self.segments.len() == 1 {
            assert(self@.segments[0] == self.segments@[0]@);
        }
        if !self.leading_colon && self.segments.len() == 1 && self.segments[0].plain {
            Some(self.segments[0].ident.clone())
        } else {
            None
        }
    }
}

/// An attribute of a function.
pub enum Attribute {
    /// A path without arguments.
    Path(Path),
    /// Any other attribute.
    Other,
}

/// What an [Attribute] is.
#[verifier::ext_equal]
pub enum AttributeView {
    Path(PathView),
    Other,
}

impl View for Attribute {
    type V = AttributeView;

    open spec fn view(&self) -> AttributeView {
        match self {
            Attribute::Path(path) => AttributeView::Path(path@),
            Attribute::Other => AttributeView::Other,
        }
    }
}

/// A function to test.
pub struct Function {
    pub asyncness: bool,
    pub attrs: Vec<Attribute>,
}

/// What a [Function] is.
#[verifier::ext_equal]
pub struct FunctionView {
    pub asyncness: bool,
    pub attrs: Seq<AttributeView>,
}

impl View for Function {
    type V = FunctionView;

    open spec fn view(&self) -> FunctionView {
        FunctionView {
            asyncness: self.asyncness,
            attrs: self.attrs@.map_values(|attr: Attribute| attr@),
        }
    }
}

/// Whether a character is a digit in base ten.
pub open spec fn is_digit(c: char) -> bool {
    '0' <= c && c <= '9'
}

/// Whether a text is made of digits, and of one at least.
pub open spec fn is_natural(text: Seq<char>) -> bool {
    text.len() > 0 && forall|i: int| 0 <= i < text.len() ==> is_digit(#[trigger] text[i])
}

/// The number with these digits.
pub open spec fn natural(digits: Seq<char>) -> nat
    decreases digits.len(),
{
    if digits.len() == 0 {
        0
    } else {
        (10 * natural(digits.drop_last()) + (digits.last() as nat - '0' as nat)) as nat
    }
}

/// Whether a text is a number, with a minus sign or without.
pub open spec fn is_integer(text: Seq<char>) -> bool {
    is_natural(text) || text.len() > 0 && text[0] == '-' && is_natural(text.drop_first())
}

/// The number in a text.
pub open spec fn integer(text: Seq<char>) -> int {
    if text.len() > 0 && text[0] == '-' {
        -natural(text.drop_first())
    } else {
        natural(text) as int
    }
}

/// Whether all integers among the arguments are numbers.
pub open spec fn numeric(args: Seq<ArgumentView>) -> bool {
    forall|i: int|
        0 <= i < args.len() ==> (#[trigger] args[i] matches ArgumentView::NameValue(
            _,
            Some(LiteralView::Int(digits)),
        ) ==> is_integer(digits))
}

/// The arguments in a text, or what is wrong with it: the result of parsing the text by
/// `syn::punctuated::Punctuated::parse_terminated` as `syn::Meta` with `syn::token::Comma` in
/// between.
pub uninterp spec fn parsed_arguments(text: Seq<char>) -> Result<Seq<ArgumentView>, Seq<char>>;

/// Parses the arguments of an attribute.
///
/// `syn::parse::Parser::parse_str` with `syn::punctuated::Punctuated::parse_terminated`. The contract
/// claims that the result depends on the text alone, and that the digits of an integer literal are
/// a number in base ten.
#[verifier::external_body]
fn parse_arguments(text: &str) -> (args: Result<Vec<Argument>, String>)
    ensures
        match args {
            Ok(args) => parsed_arguments(text@) == Ok::<Seq<ArgumentView>, Seq<char>>(views(args@))
                && numeric(views(args@)),
            Err(message) => parsed_arguments(text@) == Err::<Seq<ArgumentView>, Seq<char>>(message@),
        },
{
    let args = Punctuated::<Meta, Comma>::parse_terminated
        .parse_str(text).map_err(|error| error.to_string())?;
    let literal = |value| match value {
        Expr::Lit(value) => Some(match value.lit {
            Lit::Str(lit) => Literal::Str(lit.token().to_string(), lit.value()),
            Lit::Int(lit) => Literal::Int(lit.base10_digits().to_string()),
            _ => Literal::Other,
        }),
        _ => None,
    };
    let name = |path: syn::Path| path.get_ident().map(Ident::to_string);
    Ok(args.into_iter().map(|arg| match arg {
        Meta::NameValue(arg) => Argument::NameValue(name(arg.path), literal(arg.value)),
        _ => Argument::Other,
    }).collect())
}

/// The path in a string literal: the result of parsing the literal by `syn::LitStr::parse` as `syn::Path`.
pub uninterp spec fn literal_path(token: Seq<char>) -> Option<PathView>;

/// Parses the value of a string literal as a path.
///
/// `syn::LitStr::parse`. The contract claims that the result depends on the token alone.
#[verifier::external_body]
fn parse_path(token: &str) -> (path: Option<Path>)
    ensures
        literal_path(token@) == path_of(path),
{
    let path = syn::parse_str::<LitStr>(token).and_then(|lit| lit.parse::<syn::Path>()).ok()?;
    Some(Path {
        leading_colon: path.leading_colon.is_some(),
        segments: path.segments.into_iter().map(|segment| Segment {
            ident: segment.ident.to_string(),
            plain: segment.arguments.is_none(),
        }).collect(),
    })
}

/// What is wrong with a number that is out of range: the message of the error of
/// `syn::LitInt::base10_parse`.
pub uninterp spec fn range_message(digits: Seq<char>) -> Seq<char>;

/// Parses an integer literal.
///
/// `syn::LitInt::base10_parse`. The contract claims that it returns the number with these digits, and
/// an error if that does not fit.
#[verifier::external_body]
fn parse_integer(digits: &str) -> (number: Result<isize, String>)
    requires
        is_integer(digits@),
    ensures
        match number {
            Ok(number) => number == integer(digits@),
            Err(message) => {
                &&& !(isize::MIN <= integer(digits@) <= isize::MAX)
                &&& message@ == range_message(digits@)
            },
        },
{
    let lit = LitInt::new(digits, Span::call_site());
    lit.base10_parse::<isize>().map_err(|error| error.to_string())
}

/// The function in a text, or what is wrong with it: the result of `syn::parse_str` as `syn::ItemFn`.
pub uninterp spec fn parsed_function(text: Seq<char>) -> Result<FunctionView, Seq<char>>;

/// Parses a function.
///
/// `syn::parse_str`. The contract claims that the result depends on the text alone.
#[verifier::external_body]
fn parse_function(text: &str) -> (function: Result<Function, String>)
    ensures
        parsed_function(text@) == match function {
            Ok(function) => Ok::<FunctionView, Seq<char>>(function@),
            Err(message) => Err::<FunctionView, Seq<char>>(message@),
        },
{
    let item = syn::parse_str::<ItemFn>(text).map_err(|error| error.to_string())?;
    let attrs = item.attrs.into_iter().map(|attr| match attr.meta {
        Meta::Path(path) => Attribute::Path(Path {
            leading_colon: path.leading_colon.is_some(),
            segments: path.segments.into_iter().map(|segment| Segment {
                ident: segment.ident.to_string(),
                plain: segment.arguments.is_none(),
            }).collect(),
        }),
        _ => Attribute::Other,
    });
    Ok(Function { asyncness: item.sig.asyncness.is_some(), attrs: attrs.collect() })
}

/// The number in a text, with a plus sign or without.
pub open spec fn unsigned(text: Seq<char>) -> Option<nat> {
    let digits = if text.len() > 0 && text[0] == '+' {
        text.drop_first()
    } else {
        text
    };
    if is_natural(digits) {
        Some(natural(digits))
    } else {
        None
    }
}

/// Parses a number.
///
/// [str::parse] of the standard library as [usize]: "The characters are expected to be an optional `+`
/// sign followed by only digits."
#[verifier::external_body]
fn parse_usize(text: &str) -> (number: Option<usize>)
    ensures
        match number {
            Some(number) => unsigned(text@) == Some(number as nat),
            None => unsigned(text@) matches Some(number) ==> number > usize::MAX,
        },
{
    text.parse::<usize>().ok()
}

/// What is wrong with the arguments of the attribute.
pub enum ConfigError {
    /// The crate name comes twice.
    CrateNameSet,
    /// This string is no crate name.
    InvalidCrateName(String),
    /// The crate name is no string.
    NoCrateName,
    /// The parallelism comes twice.
    ParallelismSet,
    /// The parallelism is out of range, with this message.
    ParallelismRange(String),
    /// The parallelism is negative or no integer.
    NoParallelism,
    /// A name is no identifier.
    InvalidName,
    /// The value of this name is no literal.
    NoLiteral(String),
    /// There is no such name.
    UnknownName,
    /// There is no such argument.
    UnknownArgument,
}

/// What a [ConfigError] is.
#[verifier::ext_equal]
pub enum ConfigErrorView {
    CrateNameSet,
    InvalidCrateName(Seq<char>),
    NoCrateName,
    ParallelismSet,
    ParallelismRange(Seq<char>),
    NoParallelism,
    InvalidName,
    NoLiteral(Seq<char>),
    UnknownName,
    UnknownArgument,
}

impl View for ConfigError {
    type V = ConfigErrorView;

    open spec fn view(&self) -> ConfigErrorView {
        match self {
            ConfigError::CrateNameSet => ConfigErrorView::CrateNameSet,
            ConfigError::InvalidCrateName(name) => ConfigErrorView::InvalidCrateName(name@),
            ConfigError::NoCrateName => ConfigErrorView::NoCrateName,
            ConfigError::ParallelismSet => ConfigErrorView::ParallelismSet,
            ConfigError::ParallelismRange(message) => ConfigErrorView::ParallelismRange(message@),
            ConfigError::NoParallelism => ConfigErrorView::NoParallelism,
            ConfigError::InvalidName => ConfigErrorView::InvalidName,
            ConfigError::NoLiteral(name) => ConfigErrorView::NoLiteral(name@),
            ConfigError::UnknownName => ConfigErrorView::UnknownName,
            ConfigError::UnknownArgument => ConfigErrorView::UnknownArgument,
        }
    }
}

impl ConfigErrorView {
    /// The message of the error.
    pub open spec fn message(self) -> Seq<char> {
        match self {
            ConfigErrorView::CrateNameSet => "crate name already set"@,
            ConfigErrorView::InvalidCrateName(name) => "invalid crate name: "@ + name,
            ConfigErrorView::NoCrateName => "invalid crate name"@,
            ConfigErrorView::ParallelismSet => "parallelism already set"@,
            ConfigErrorView::ParallelismRange(message) => message,
            ConfigErrorView::NoParallelism => "parallelism should be non negative integer"@,
            ConfigErrorView::InvalidName => "invalid attribute name"@,
            ConfigErrorView::NoLiteral(name) => name + " expect literal value"@,
            ConfigErrorView::UnknownName => "unknown attribute name"@,
            ConfigErrorView::UnknownArgument => "unknown attribute"@,
        }
    }
}

impl ConfigError {
    /// The message of the error.
    pub fn message(&self) -> (message: String)
        ensures
            message@ == self@.message(),
    {
        match self {
            ConfigError::CrateNameSet => "crate name already set".to_owned(),
            ConfigError::InvalidCrateName(name) => {
                let mut message = "invalid crate name: ".to_owned();
                message.push_str(name.as_str());
                message
            },
            ConfigError::NoCrateName => "invalid crate name".to_owned(),
            ConfigError::ParallelismSet => "parallelism already set".to_owned(),
            ConfigError::ParallelismRange(message) => message.clone(),
            ConfigError::NoParallelism => "parallelism should be non negative integer".to_owned(),
            ConfigError::InvalidName => "invalid attribute name".to_owned(),
            ConfigError::NoLiteral(name) => {
                let mut message = name.clone();
                message.push_str(" expect literal value");
                message
            },
            ConfigError::UnknownName => "unknown attribute name".to_owned(),
            ConfigError::UnknownArgument => "unknown attribute".to_owned(),
        }
    }
}

/// What the arguments of the attribute ask for.
pub struct Configuration {
    pub crate_name: Option<String>,
    pub parallelism: Option<usize>,
}

/// What a [Configuration] is.
#[verifier::ext_equal]
pub struct ConfigurationView {
    pub crate_name: Option<Seq<char>>,
    pub parallelism: Option<usize>,
}

impl View for Configuration {
    type V = ConfigurationView;

    open spec fn view(&self) -> ConfigurationView {
        ConfigurationView { crate_name: text_of(self.crate_name), parallelism: self.parallelism }
    }
}

impl Default for Configuration {
    fn default() -> (config: Self)
        ensures
            config@ == ConfigurationView::empty(),
    {
        Configuration { crate_name: None, parallelism: None }
    }
}

impl ConfigurationView {
    /// Nothing is asked for.
    pub open spec fn empty() -> Self {
        ConfigurationView { crate_name: None, parallelism: None }
    }

    /// What comes of a crate name, given the path in it.
    pub open spec fn with_crate_name(
        self,
        literal: LiteralView,
        path: Option<PathView>,
    ) -> Result<Self, ConfigErrorView> {
        if self.crate_name is Some {
            Err(ConfigErrorView::CrateNameSet)
        } else {
            match literal {
                LiteralView::Str(_, value) => if path is Some && path->Some_0.ident() is Some {
                    Ok(ConfigurationView { crate_name: path->Some_0.ident(), ..self })
                } else {
                    Err(ConfigErrorView::InvalidCrateName(value))
                },
                _ => Err(ConfigErrorView::NoCrateName),
            }
        }
    }

    /// What comes of a parallelism.
    pub open spec fn with_parallelism(self, literal: LiteralView) -> Result<Self, ConfigErrorView> {
        if self.parallelism is Some {
            Err(ConfigErrorView::ParallelismSet)
        } else {
            match literal {
                LiteralView::Int(digits) => if !(isize::MIN <= integer(digits) <= isize::MAX) {
                    Err(ConfigErrorView::ParallelismRange(range_message(digits)))
                } else if integer(digits) < 0 {
                    Err(ConfigErrorView::NoParallelism)
                } else {
                    Ok(
                        ConfigurationView {
                            parallelism: Some(integer(digits) as usize),
                            ..self
                        },
                    )
                },
                _ => Err(ConfigErrorView::NoParallelism),
            }
        }
    }

    /// What comes of an argument, given the path in it.
    pub open spec fn with_argument(
        self,
        arg: ArgumentView,
        path: Option<PathView>,
    ) -> Result<Self, ConfigErrorView> {
        match arg {
            ArgumentView::NameValue(None, _) => Err(ConfigErrorView::InvalidName),
            ArgumentView::NameValue(Some(name), None) => Err(ConfigErrorView::NoLiteral(name)),
            ArgumentView::NameValue(Some(name), Some(literal)) => if name == "parallelism"@ {
                self.with_parallelism(literal)
            } else if name == "crate"@ {
                self.with_crate_name(literal, path)
            } else {
                Err(ConfigErrorView::UnknownName)
            },
            ArgumentView::Other => Err(ConfigErrorView::UnknownArgument),
        }
    }

    /// What comes of arguments, one after the other. The first error ends it.
    pub open spec fn with_arguments(self, args: Seq<ArgumentView>) -> Result<Self, ConfigErrorView>
        decreases args.len(),
    {
        if args.len() == 0 {
            Ok(self)
        } else {
            match self.with_argument(args[0], path_in(args[0])) {
                Ok(config) => config.with_arguments(args.drop_first()),
                Err(error) => Err(error),
            }
        }
    }
}

/// The path in the string literal of an argument.
pub open spec fn path_in(arg: ArgumentView) -> Option<PathView> {
    match arg {
        ArgumentView::NameValue(_, Some(LiteralView::Str(token, _))) => literal_path(token),
        _ => None,
    }
}

impl Configuration {
    /// Sets the crate name to the identifier in a literal.
    pub fn set_crate_name(&mut self, lit: &Literal) -> (set: Result<(), ConfigError>)
        ensures
            ({
                let path = match lit@ {
                    LiteralView::Str(token, _) => literal_path(token),
                    _ => None,
                };
                match old(self)@.with_crate_name(lit@, path) {
                    Ok(config) => set is Ok && final(self)@ == config,
                    Err(error) => {
                        &&& set matches Err(found) && found@ == error
                        &&& final(self)@ == old(self)@
                    },
                }
            }),
    {
        let path = match lit {
            Literal::Str(token, _) => parse_path(token.as_str()),
            _ => None,
        };
        self.accept_crate_name(lit, path)
    }

    /// Sets the crate name to the identifier that `path` is, which is the path in a literal if there is
    /// one.
    pub fn accept_crate_name(&mut self, lit: &Literal, path: Option<Path>) -> (set: Result<
        (),
        ConfigError,
    >)
        ensures
            match old(self)@.with_crate_name(lit@, path_of(path)) {
                Ok(config) => set is Ok && final(self)@ == config,
                Err(error) => {
                    &&& set matches Err(found) && found@ == error
                    &&& final(self)@ == old(self)@
                },
            },
    {
        if self.crate_name.is_some() {
            return Err(ConfigError::CrateNameSet);
        }
        if let Literal::Str(_, value) = lit {
            if let Some(path) = path {
                if let Some(ident) = path.get_ident() {
                    self.crate_name = Some(ident);
                    return Ok(());
                }
            }
            return Err(ConfigError::InvalidCrateName(value.clone()));
        }
        Err(ConfigError::NoCrateName)
    }

    /// Sets the parallelism to the number in a literal.
    pub fn set_parallelism(&mut self, lit: &Literal) -> (set: Result<(), ConfigError>)
        requires
            lit@ matches LiteralView::Int(digits) ==> is_integer(digits),
        ensures
            match old(self)@.with_parallelism(lit@) {
                Ok(config) => set is Ok && final(self)@ == config,
                Err(error) => {
                    &&& set matches Err(found) && found@ == error
                    &&& final(self)@ == old(self)@
                },
            },
    {
        if self.parallelism.is_some() {
            return Err(ConfigError::ParallelismSet);
        }
        if let Literal::Int(digits) = lit {
            let parallelism = match parse_integer(digits.as_str()) {
                Ok(parallelism) => parallelism,
                Err(message) => return Err(ConfigError::ParallelismRange(message)),
            };
            if parallelism >= 0 {
                self.parallelism = Some(parallelism as usize);
                return Ok(());
            }
        }
        Err(ConfigError::NoParallelism)
    }

    /// Follows an argument, given the path in its string literal if there is one.
    pub fn accept(&mut self, arg: &Argument, path: Option<Path>) -> (accepted: Result<
        (),
        ConfigError,
    >)
        requires
            arg@ matches ArgumentView::NameValue(_, Some(LiteralView::Int(digits)))
                ==> is_integer(digits),
        ensures
            match old(self)@.with_argument(arg@, path_of(path)) {
                Ok(config) => accepted is Ok && final(self)@ == config,
                Err(error) => {
                    &&& accepted matches Err(found) && found@ == error
                    &&& final(self)@ == old(self)@
                },
            },
    {
        match arg {
            Argument::NameValue(name, literal) => {
                let name = match name {
                    Some(name) => name,
                    None => return Err(ConfigError::InvalidName),
                };
                let lit = match literal {
                    Some(lit) => lit,
                    None => return Err(ConfigError::NoLiteral(name.clone())),
                };
                if *name == "parallelism".to_owned() {
                    self.set_parallelism(lit)
                } else if *name == "crate".to_owned() {
                    self.accept_crate_name(lit, path)
                } else {
                    Err(ConfigError::UnknownName)
                }
            },
            Argument::Other => Err(ConfigError::UnknownArgument),
        }
    }
}

/// Follows the arguments of the attribute.
pub fn parse_config(args: &Vec<Argument>) -> (config: Result<Configuration, ConfigError>)
    requires
        numeric(views(args@)),
    ensures
        match ConfigurationView::empty().with_arguments(views(args@)) {
            Ok(expected) => config matches Ok(config) && config@ == expected,
            Err(expected) => config matches Err(error) && error@ == expected,
        },
{
    let mut config = Configuration::default();
    let ghost all = views(args@);
    let mut i: usize = 0;
    assert(all.skip(0) =~= all);
    while i < args.len()
        invariant
            i <= args.len(),
            all == views(args@),
            numeric(all),
            config@.with_arguments(all.skip(i as int)) == ConfigurationView::empty().with_arguments(
                all,
            ),
        decreases args.len() - i,
    {
        let arg = &args[i];
        let ghost rest = all.skip(i as int);
        assert(rest[0] == arg@);
        assert(all[i as int] == arg@);
        assert(rest.drop_first() =~= all.skip(i + 1));
        let path = match arg {
            Argument::NameValue(_, Some(Literal::Str(token, _))) => parse_path(token.as_str()),
            _ => None,
        };
        match config.accept(arg, path) {
            Ok(_) => {},
            Err(error) => return Err(error),
        }
        i = i + 1;
    }
    assert(all.skip(i as int).len() == 0);
    Ok(config)
}

/// Whether segments are those of `core::prelude::*::test` or of `std::prelude::*::test`.
pub open spec fn is_prelude_test(segments: Seq<SegmentView>) -> bool {
    &&& segments.len() == 4
    &&& forall|i: int| 0 <= i < 4 ==> (#[trigger] segments[i]).plain
    &&& segments[0].ident == "core"@ || segments[0].ident == "std"@
    &&& segments[1].ident == "prelude"@
    &&& segments[3].ident == "test"@
}

impl AttributeView {
    /// Whether this is a test attribute of one of these forms:
    /// * `#[test]`
    /// * `#[core::prelude::*::test]` or `#[::core::prelude::*::test]`
    /// * `#[std::prelude::*::test]` or `#[::std::prelude::*::test]`
    pub open spec fn is_test(self) -> bool {
        match self {
            AttributeView::Path(path) => {
                ||| {
                    &&& !path.leading_colon
                    &&& path.segments.len() == 1
                    &&& path.segments[0].plain
                    &&& path.segments[0].ident == "test"@
                }
                ||| is_prelude_test(path.segments)
            },
            AttributeView::Other => false,
        }
    }
}

/// Checks whether an attribute is a test attribute of one of these forms:
/// * `#[test]`
/// * `#[core::prelude::*::test]` or `#[::core::prelude::*::test]`
/// * `#[std::prelude::*::test]` or `#[::std::prelude::*::test]`
pub fn is_test_attribute(attr: &Attribute) -> (is_test: bool)
    ensures
        is_test == attr@.is_test(),
{
    let path = match attr {
        Attribute::Path(path) => path,
        Attribute::Other => return false,
    };
    let ghost segments = path@.segments;
    assert(forall|i: int| 0 <= i < segments.len() ==> segments[i] == (#[trigger] path.segments@[i])@);
    if !path.leading_colon && path.segments.len() == 1 && path.segments[0].plain
        && path.segments[0].ident == "test".to_owned() {
        return true;
    }
    if path.segments.len() != 4 {
        return false;
    }
    let plain = path.segments[0].plain && path.segments[1].plain && path.segments[2].plain
        && path.segments[3].plain;
    let root = path.segments[0].ident == "core".to_owned() || path.segments[0].ident
        == "std".to_owned();
    plain && root && path.segments[1].ident == "prelude".to_owned() && path.segments[3].ident
        == "test".to_owned()
}

/// What is wrong with a test.
pub enum TestError {
    /// The arguments do not parse, with this message.
    Arguments(String),
    /// The arguments do not make sense.
    Config(ConfigError),
    /// The function does not parse, with this message.
    Function(String),
    /// The function is not asynchronous. The attribute is that of this crate.
    NotAsync(String),
    /// The attribute at this place is a test attribute too.
    SecondTest(usize),
}

/// What a [TestError] is.
#[verifier::ext_equal]
pub enum TestErrorView {
    Arguments(Seq<char>),
    Config(ConfigErrorView),
    Function(Seq<char>),
    NotAsync(Seq<char>),
    SecondTest(int),
}

impl View for TestError {
    type V = TestErrorView;

    open spec fn view(&self) -> TestErrorView {
        match self {
            TestError::Arguments(message) => TestErrorView::Arguments(message@),
            TestError::Config(error) => TestErrorView::Config(error@),
            TestError::Function(message) => TestErrorView::Function(message@),
            TestError::NotAsync(crate_name) => TestErrorView::NotAsync(crate_name@),
            TestError::SecondTest(i) => TestErrorView::SecondTest(*i as int),
        }
    }
}

impl TestErrorView {
    /// The message of the error.
    pub open spec fn message(self) -> Seq<char> {
        match self {
            TestErrorView::Arguments(message) => message,
            TestErrorView::Config(error) => error.message(),
            TestErrorView::Function(message) => message,
            TestErrorView::NotAsync(crate_name) => {
                "only asynchronous function can be tagged with #["@ + crate_name + ":test]"@
            },
            TestErrorView::SecondTest(_) => {
                "second test attribute is supplied, consider removing or changing the order of your test attributes"@
            },
        }
    }
}

impl TestError {
    /// The message of the error.
    pub fn message(&self) -> (message: String)
        ensures
            message@ == self@.message(),
    {
        match self {
            TestError::Arguments(message) => message.clone(),
            TestError::Config(error) => error.message(),
            TestError::Function(message) => message.clone(),
            TestError::NotAsync(crate_name) => {
                let mut message = "only asynchronous function can be tagged with #[".to_owned();
                message.push_str(crate_name.as_str());
                message.push_str(":test]");
                message
            },
            TestError::SecondTest(_) => {
                "second test attribute is supplied, consider removing or changing the order of your test attributes".to_owned()
            },
        }
    }
}

/// How to run a test.
pub struct Test {
    /// The crate that runs it.
    pub crate_name: String,
    /// Whether the environment may tell the parallelism.
    pub prefer_env_parallelism: bool,
    pub parallelism: usize,
}

/// What a [Test] is.
#[verifier::ext_equal]
pub struct TestView {
    pub crate_name: Seq<char>,
    pub prefer_env_parallelism: bool,
    pub parallelism: usize,
}

impl View for Test {
    type V = TestView;

    open spec fn view(&self) -> TestView {
        TestView {
            crate_name: self.crate_name@,
            prefer_env_parallelism: self.prefer_env_parallelism,
            parallelism: self.parallelism,
        }
    }
}

impl FunctionView {
    /// Whether the attribute at `i` is the first test attribute.
    pub open spec fn first_test(self, i: int) -> bool {
        &&& 0 <= i < self.attrs.len()
        &&& self.attrs[i].is_test()
        &&& forall|j: int| 0 <= j < i ==> !(#[trigger] self.attrs[j]).is_test()
    }

    /// Whether there is no test attribute.
    pub open spec fn untested(self) -> bool {
        forall|i: int| 0 <= i < self.attrs.len() ==> !(#[trigger] self.attrs[i]).is_test()
    }
}

/// How to run a test with this configuration and of this function, if that can be told.
pub open spec fn planned(
    config: ConfigurationView,
    function: FunctionView,
    test: Result<TestView, TestErrorView>,
) -> bool {
    let crate_name = match config.crate_name {
        Some(crate_name) => crate_name,
        None => "asyncs"@,
    };
    if !function.asyncness {
        test == Err::<TestView, TestErrorView>(TestErrorView::NotAsync(crate_name))
    } else if function.untested() {
        test == Ok::<TestView, TestErrorView>(
            TestView {
                crate_name,
                prefer_env_parallelism: config.parallelism is None,
                parallelism: match config.parallelism {
                    Some(parallelism) => parallelism,
                    None => 2,
                },
            },
        )
    } else {
        test matches Err(TestErrorView::SecondTest(i)) && function.first_test(i)
    }
}

/// How to run a test with these arguments and of this function, if that can be told.
pub open spec fn generated(
    args: Result<Seq<ArgumentView>, Seq<char>>,
    function: Result<FunctionView, Seq<char>>,
    test: Result<TestView, TestErrorView>,
) -> bool {
    match args {
        Err(message) => test == Err::<TestView, TestErrorView>(TestErrorView::Arguments(message)),
        Ok(args) => match ConfigurationView::empty().with_arguments(args) {
            Err(error) => test == Err::<TestView, TestErrorView>(TestErrorView::Config(error)),
            Ok(config) => match function {
                Err(message) => test == Err::<TestView, TestErrorView>(
                    TestErrorView::Function(message),
                ),
                Ok(function) => planned(config, function, test),
            },
        },
    }
}

/// What a result is.
pub open spec fn result_of(test: Result<Test, TestError>) -> Result<TestView, TestErrorView> {
    match test {
        Ok(test) => Ok(test@),
        Err(error) => Err(error@),
    }
}

/// Tells how to run a test with this configuration and of this function.
pub fn plan(config: Configuration, function: &Function) -> (test: Result<Test, TestError>)
    ensures
        planned(config@, function@, result_of(test)),
{
    let crate_name = match config.crate_name {
        Some(crate_name) => crate_name,
        None => "asyncs".to_owned(),
    };
    if !function.asyncness {
        return Err(TestError::NotAsync(crate_name));
    }
    let ghost attrs = function@.attrs;
    let mut i: usize = 0;
    while i < function.attrs.len()
        invariant
            i <= function.attrs.len(),
            attrs == function@.attrs,
            function@.asyncness,
            forall|j: int| 0 <= j < i ==> !(#[trigger] attrs[j]).is_test(),
        decreases function.attrs.len() - i,
    {
        assert(attrs[i as int] == function.attrs@[i as int]@);
        if is_test_attribute(&function.attrs[i]) {
            assert(function@.first_test(i as int));
            return Err(TestError::SecondTest(i));
        }
        i = i + 1;
    }
    let prefer_env_parallelism = config.parallelism.is_none();
    let parallelism: usize = match config.parallelism {
        Some(parallelism) => parallelism,
        None => 2,
    };
    Ok(Test { crate_name, prefer_env_parallelism, parallelism })
}

/// What parsed arguments are.
pub open spec fn arguments_of(args: Result<Vec<Argument>, String>) -> Result<
    Seq<ArgumentView>,
    Seq<char>,
> {
    match args {
        Ok(args) => Ok(views(args@)),
        Err(message) => Err(message@),
    }
}

/// What a parsed function is.
pub open spec fn function_of(function: Result<Function, String>) -> Result<
    FunctionView,
    Seq<char>,
> {
    match function {
        Ok(function) => Ok(function@),
        Err(message) => Err(message@),
    }
}

/// Tells how to run a test, given what its arguments and its function parse to.
pub fn generate_parsed(
    args: Result<Vec<Argument>, String>,
    function: Result<Function, String>,
) -> (test: Result<Test, TestError>)
    requires
        args matches Ok(args) ==> numeric(views(args@)),
    ensures
        generated(arguments_of(args), function_of(function), result_of(test)),
{
    let args = match args {
        Ok(args) => args,
        Err(message) => return Err(TestError::Arguments(message)),
    };
    let config = match parse_config(&args) {
        Ok(config) => config,
        Err(error) => return Err(TestError::Config(error)),
    };
    let function = match function {
        Ok(function) => function,
        Err(message) => return Err(TestError::Function(message)),
    };
    plan(config, &function)
}

/// Tells how to run the test in `item` with the arguments in `attr`.
pub fn generate(attr: &str, item: &str) -> (test: Result<Test, TestError>)
    ensures
        generated(parsed_arguments(attr@), parsed_function(item@), result_of(test)),
{
    generate_parsed(parse_arguments(attr), parse_function(item))
}

/// The parallelism of a test, given what the environment tells.
pub open spec fn chosen(prefer_env: bool, parallelism: usize, value: Option<Seq<char>>) -> nat {
    match value {
        Some(value) => match unsigned(value) {
            Some(number) => if prefer_env && number <= usize::MAX {
                number
            } else {
                parallelism as nat
            },
            None => parallelism as nat,
        },
        None => parallelism as nat,
    }
}

/// Chooses the parallelism of a test: the number that the environment tells if that may be, and
/// `parallelism` otherwise.
pub fn choose_parallelism(prefer_env: bool, parallelism: usize, value: Option<String>) -> (chosen:
    usize)
    ensures
        chosen == self::chosen(prefer_env, parallelism, text_of(value)),
{
    if !prefer_env {
        return parallelism;
    }
    match value {
        None => parallelism,
        Some(value) => match parse_usize(value.as_str()) {
            None => parallelism,
            Some(number) => number,
        },
    }
}

/// Each option comes once at most: whatever comes for it then is an error.
pub proof fn law_options_come_once(
    config: ConfigurationView,
    literal: LiteralView,
    path: Option<PathView>,
)
    ensures
        config.crate_name is Some ==> config.with_crate_name(literal, path) == Err::<
            ConfigurationView,
            ConfigErrorView,
        >(ConfigErrorView::CrateNameSet),
        config.parallelism is Some ==> config.with_parallelism(literal) == Err::<
            ConfigurationView,
            ConfigErrorView,
        >(ConfigErrorView::ParallelismSet),
{
}

/// Arguments are followed one after the other, and the first error counts.
pub proof fn law_first_error_counts(
    config: ConfigurationView,
    first: Seq<ArgumentView>,
    rest: Seq<ArgumentView>,
)
    ensures
        config.with_arguments(first + rest) == match config.with_arguments(first) {
            Ok(config) => config.with_arguments(rest),
            Err(error) => Err(error),
        },
    decreases first.len(),
{
    if first.len() == 0 {
        assert(first + rest =~= rest);
    } else {
        assert((first + rest).drop_first() =~= first.drop_first() + rest);
        if let Ok(config) = config.with_argument(first[0], path_in(first[0])) {
            law_first_error_counts(config, first.drop_first(), rest);
        }
    }
}

/// Whether an argument has this name.
pub open spec fn named(arg: ArgumentView, name: Seq<char>) -> bool {
    arg matches ArgumentView::NameValue(Some(found), _) && found == name
}

/// What an argument asks for as parallelism.
pub open spec fn asked_parallelism(arg: ArgumentView) -> Option<int> {
    match arg {
        ArgumentView::NameValue(Some(_), Some(LiteralView::Int(digits))) => Some(integer(digits)),
        _ => None,
    }
}

/// What an argument asks for as crate name.
pub open spec fn asked_crate_name(arg: ArgumentView) -> Option<Seq<char>> {
    match arg {
        ArgumentView::NameValue(Some(_), Some(LiteralView::Str(token, _))) => match literal_path(
            token,
        ) {
            Some(path) => path.ident(),
            None => None,
        },
        _ => None,
    }
}

proof fn lemma_names()
    ensures
        "parallelism"@ != "crate"@,
{
    reveal_strlit("parallelism");
    reveal_strlit("crate");
    assert("parallelism"@.len() != "crate"@.len());
}

/// An argument is accepted if and only if it is a parallelism that is a number from zero on that fits, or
/// a crate name that is a string with an identifier in it, and none of its name came before. It sets what
/// it names and nothing else.
pub proof fn law_argument_is_accepted(config: ConfigurationView, arg: ArgumentView)
    ensures
        ({
            let parallel = {
                &&& named(arg, "parallelism"@)
                &&& config.parallelism is None
                &&& asked_parallelism(arg) matches Some(number) && 0 <= number <= isize::MAX
            };
            let crated = {
                &&& named(arg, "crate"@)
                &&& config.crate_name is None
                &&& asked_crate_name(arg) is Some
            };
            let then = config.with_argument(arg, path_in(arg));
            &&& then is Ok <==> parallel || crated
            &&& parallel ==> {
                &&& then->Ok_0.parallelism matches Some(number) && Some(number as int)
                    == asked_parallelism(arg)
                &&& then->Ok_0.crate_name == config.crate_name
            }
            &&& crated ==> {
                &&& then->Ok_0.crate_name == asked_crate_name(arg)
                &&& then->Ok_0.parallelism == config.parallelism
            }
        }),
{
    lemma_names();
}

/// What is wrong with an argument that is not accepted.
pub proof fn law_argument_errors(config: ConfigurationView, arg: ArgumentView, path: Option<PathView>)
    ensures
        ({
            let then = config.with_argument(arg, path);
            &&& then == Err::<ConfigurationView, ConfigErrorView>(ConfigErrorView::UnknownArgument)
                <==> arg is Other
            &&& then == Err::<ConfigurationView, ConfigErrorView>(ConfigErrorView::InvalidName)
                <==> (arg matches ArgumentView::NameValue(None, _))
            &&& forall|name: Seq<char>| #[trigger]
                is_no_literal(then, name) <==> arg == ArgumentView::NameValue(Some(name), None)
            &&& then == Err::<ConfigurationView, ConfigErrorView>(ConfigErrorView::UnknownName)
                <==> {
                &&& arg matches ArgumentView::NameValue(Some(_), Some(_))
                &&& !named(arg, "parallelism"@)
                &&& !named(arg, "crate"@)
            }
            &&& arg matches ArgumentView::NameValue(Some(name), Some(literal)) ==> {
                &&& name == "parallelism"@ && config.parallelism is None ==> {
                    &&& !(literal is Int) ==> then == Err::<ConfigurationView, ConfigErrorView>(
                        ConfigErrorView::NoParallelism,
                    )
                    &&& literal matches LiteralView::Int(digits) ==> {
                        &&& isize::MIN <= integer(digits) < 0 ==> then == Err::<
                            ConfigurationView,
                            ConfigErrorView,
                        >(ConfigErrorView::NoParallelism)
                        &&& integer(digits) < isize::MIN || isize::MAX < integer(digits) ==> then
                            == Err::<ConfigurationView, ConfigErrorView>(
                            ConfigErrorView::ParallelismRange(range_message(digits)),
                        )
                    }
                }
                &&& name == "parallelism"@ && config.parallelism is Some ==> then == Err::<
                    ConfigurationView,
                    ConfigErrorView,
                >(ConfigErrorView::ParallelismSet)
                &&& name == "crate"@ && config.crate_name is Some ==> then == Err::<
                    ConfigurationView,
                    ConfigErrorView,
                >(ConfigErrorView::CrateNameSet)
                &&& name == "crate"@ && config.crate_name is None ==> {
                    &&& !(literal is Str) ==> then == Err::<ConfigurationView, ConfigErrorView>(
                        ConfigErrorView::NoCrateName,
                    )
                    &&& literal matches LiteralView::Str(_, value) ==> {
                        path is None || path->Some_0.ident() is None ==> then == Err::<
                            ConfigurationView,
                            ConfigErrorView,
                        >(ConfigErrorView::InvalidCrateName(value))
                    }
                }
            }
        }),
{
    lemma_names();
}

/// Whether it is wrong that the value of `name` is no literal.
pub open spec fn is_no_literal(
    then: Result<ConfigurationView, ConfigErrorView>,
    name: Seq<char>,
) -> bool {
    then == Err::<ConfigurationView, ConfigErrorView>(ConfigErrorView::NoLiteral(name))
}

proof fn lemma_accepted(config: ConfigurationView, args: Seq<ArgumentView>)
    requires
        config.with_arguments(args) is Ok,
    ensures
        ({
            let then = config.with_arguments(args)->Ok_0;
            &&& forall|i: int|
                0 <= i < args.len() ==> {
                    ||| named(#[trigger] args[i], "parallelism"@)
                    ||| named(args[i], "crate"@)
                }
            &&& forall|i: int|
                0 <= i < args.len() && named(#[trigger] args[i], "parallelism"@) ==> {
                    &&& config.parallelism is None
                    &&& then.parallelism matches Some(number) && Some(number as int)
                        == asked_parallelism(args[i])
                }
            &&& forall|i: int|
                0 <= i < args.len() && named(#[trigger] args[i], "crate"@) ==> {
                    &&& config.crate_name is None
                    &&& then.crate_name is Some
                    &&& then.crate_name == asked_crate_name(args[i])
                }
            &&& forall|i: int, j: int|
                0 <= i < j < args.len() ==> !(named(#[trigger] args[i], "parallelism"@) && named(
                    #[trigger] args[j],
                    "parallelism"@,
                ))
            &&& forall|i: int, j: int|
                0 <= i < j < args.len() ==> !(named(#[trigger] args[i], "crate"@) && named(
                    #[trigger] args[j],
                    "crate"@,
                ))
            &&& (forall|i: int|
                0 <= i < args.len() ==> !named(#[trigger] args[i], "parallelism"@))
                ==> then.parallelism == config.parallelism
            &&& (forall|i: int| 0 <= i < args.len() ==> !named(#[trigger] args[i], "crate"@))
                ==> then.crate_name == config.crate_name
            &&& config.parallelism is Some ==> then.parallelism == config.parallelism
            &&& config.crate_name is Some ==> then.crate_name == config.crate_name
        }),
    decreases args.len(),
{
    lemma_names();
    if args.len() > 0 {
        law_argument_is_accepted(config, args[0]);
        let next = config.with_argument(args[0], path_in(args[0]))->Ok_0;
        let rest = args.drop_first();
        lemma_accepted(next, rest);
        assert forall|i: int| 0 < i < args.len() implies #[trigger] args[i] == rest[i - 1] by {}
        assert forall|i: int, j: int| 0 <= i < j < args.len() implies !(named(
            #[trigger] args[i],
            "parallelism"@,
        ) && named(#[trigger] args[j], "parallelism"@)) by {
            if i > 0 {
                assert(args[i] == rest[i - 1]);
            }
            assert(args[j] == rest[j - 1]);
        }
        assert forall|i: int, j: int| 0 <= i < j < args.len() implies !(named(
            #[trigger] args[i],
            "crate"@,
        ) && named(#[trigger] args[j], "crate"@)) by {
            if i > 0 {
                assert(args[i] == rest[i - 1]);
            }
            assert(args[j] == rest[j - 1]);
        }
        if forall|i: int| 0 <= i < args.len() ==> !named(#[trigger] args[i], "parallelism"@) {
            assert forall|i: int| 0 <= i < rest.len() implies !named(
                #[trigger] rest[i],
                "parallelism"@,
            ) by {
                assert(rest[i] == args[i + 1]);
            }
        }
        if forall|i: int| 0 <= i < args.len() ==> !named(#[trigger] args[i], "crate"@) {
            assert forall|i: int| 0 <= i < rest.len() implies !named(
                #[trigger] rest[i],
                "crate"@,
            ) by {
                assert(rest[i] == args[i + 1]);
            }
        }
    }
}

/// Arguments that are accepted ask for each option once at most, and what they ask for is what the
/// configuration has. It has nothing that nobody has asked for.
pub proof fn law_configuration_is_what_was_asked_for(args: Seq<ArgumentView>)
    requires
        ConfigurationView::empty().with_arguments(args) is Ok,
    ensures
        ({
            let config = ConfigurationView::empty().with_arguments(args)->Ok_0;
            &&& forall|i: int|
                0 <= i < args.len() ==> {
                    ||| named(#[trigger] args[i], "parallelism"@)
                    ||| named(args[i], "crate"@)
                }
            &&& forall|i: int|
                0 <= i < args.len() && named(#[trigger] args[i], "parallelism"@) ==> {
                    config.parallelism matches Some(number) && Some(number as int)
                        == asked_parallelism(args[i])
                }
            &&& forall|i: int|
                0 <= i < args.len() && named(#[trigger] args[i], "crate"@) ==> {
                    config.crate_name is Some && config.crate_name == asked_crate_name(args[i])
                }
            &&& config.parallelism is Some ==> exists|i: int|
                0 <= i < args.len() && named(#[trigger] args[i], "parallelism"@)
            &&& config.crate_name is Some ==> exists|i: int|
                0 <= i < args.len() && named(#[trigger] args[i], "crate"@)
        }),
{
    lemma_accepted(ConfigurationView::empty(), args);
}

/// A path is an identifier if and only if it is made of it alone.
pub proof fn law_identifier_stands_alone(path: PathView, name: Seq<char>)
    ensures
        path.ident() == Some(name) <==> {
            &&& !path.leading_colon
            &&& path.segments.len() == 1
            &&& path.segments[0].plain
            &&& path.segments[0].ident == name
        },
{
}

/// Test attributes are `test` on its own, and `test` in whatever part of the prelude of `core` or of
/// `std`, with a leading colon or without. Nothing else is one.
pub proof fn law_test_attributes(path: PathView)
    ensures
        !AttributeView::Other.is_test(),
        path.segments.len() == 1 ==> (AttributeView::Path(path).is_test() <==> {
            &&& path.ident() == Some("test"@)
        }),
        path.segments.len() == 4 ==> (AttributeView::Path(path).is_test() <==> {
            &&& path.segments[0].plain && path.segments[1].plain
            &&& path.segments[2].plain && path.segments[3].plain
            &&& path.segments[0].ident == "core"@ || path.segments[0].ident == "std"@
            &&& path.segments[1].ident == "prelude"@
            &&& path.segments[3].ident == "test"@
        }),
        path.segments.len() != 1 && path.segments.len() != 4 ==> !AttributeView::Path(
            path,
        ).is_test(),
{
}

/// A test is planned if and only if the function is asynchronous and has no other test attribute. It is
/// run by the crate and with the parallelism that were asked for, or else by `asyncs` and with two, which
/// the environment may overrule. Otherwise the first thing that is wrong is told.
pub proof fn law_plan(
    config: ConfigurationView,
    function: FunctionView,
    test: Result<TestView, TestErrorView>,
)
    requires
        planned(config, function, test),
    ensures
        test is Ok <==> function.asyncness && forall|i: int|
            0 <= i < function.attrs.len() ==> !(#[trigger] function.attrs[i]).is_test(),
        test matches Ok(test) ==> {
            &&& config.parallelism matches Some(number) ==> test.parallelism == number
                && !test.prefer_env_parallelism
            &&& config.parallelism is None ==> test.parallelism == 2 && test.prefer_env_parallelism
            &&& config.crate_name matches Some(name) ==> test.crate_name == name
            &&& config.crate_name is None ==> test.crate_name == "asyncs"@
        },
        !function.asyncness ==> {
            &&& test matches Err(TestErrorView::NotAsync(name))
            &&& config.crate_name matches Some(asked) ==> name == asked
            &&& config.crate_name is None ==> name == "asyncs"@
        },
        function.asyncness && test is Err ==> {
            &&& test matches Err(TestErrorView::SecondTest(i))
            &&& 0 <= i < function.attrs.len()
            &&& function.attrs[i].is_test()
            &&& forall|j: int| 0 <= j < i ==> !(#[trigger] function.attrs[j]).is_test()
        },
{
}

/// A test is told to be wrong by its arguments first, by what they ask for next, and then by its function.
pub proof fn law_first_thing_wrong(
    args: Result<Seq<ArgumentView>, Seq<char>>,
    function: Result<FunctionView, Seq<char>>,
    test: Result<TestView, TestErrorView>,
)
    requires
        generated(args, function, test),
    ensures
        args matches Err(message) ==> test == Err::<TestView, TestErrorView>(
            TestErrorView::Arguments(message),
        ),
        args matches Ok(args) ==> {
            let config = ConfigurationView::empty().with_arguments(args);
            &&& config matches Err(error) ==> test == Err::<TestView, TestErrorView>(
                TestErrorView::Config(error),
            )
            &&& config matches Ok(config) ==> {
                &&& function matches Err(message) ==> test == Err::<TestView, TestErrorView>(
                    TestErrorView::Function(message),
                )
                &&& function matches Ok(function) ==> planned(config, function, test)
            }
        },
{
}

/// Where the environment may tell, and its text is a number that fits, that number is chosen, whatever
/// the fallback is.
pub proof fn law_environment_decides(text: Seq<char>, number: nat, fallback: usize, other: usize)
    requires
        unsigned(text) == Some(number),
        number <= usize::MAX,
    ensures
        chosen(true, fallback, Some(text)) == number,
        chosen(true, other, Some(text)) == chosen(true, fallback, Some(text)),
{
}

/// Where the environment may not tell, or tells no number that fits, the fallback is chosen.
pub proof fn law_fallback_decides(prefer_env: bool, fallback: usize, value: Option<Seq<char>>)
    requires
        prefer_env ==> {
            ||| value is None
            ||| unsigned(value->Some_0) is None
            ||| unsigned(value->Some_0)->Some_0 > usize::MAX
        },
    ensures
        chosen(prefer_env, fallback, value) == fallback,
{
}

/// The parallelism of a test is the one that its attribute asks for, or else the one that the environment
/// tells, or else two.
pub proof fn law_attribute_before_environment(
    config: ConfigurationView,
    function: FunctionView,
    test: TestView,
    value: Option<Seq<char>>,
)
    requires
        planned(config, function, Ok(test)),
    ensures
        ({
            let parallelism = chosen(test.prefer_env_parallelism, test.parallelism, value);
            &&& config.parallelism matches Some(number) ==> parallelism == number
            &&& config.parallelism is None ==> {
                &&& value is None ==> parallelism == 2
                &&& value matches Some(text) ==> match unsigned(text) {
                    Some(number) => parallelism == if number <= usize::MAX {
                        number
                    } else {
                        2
                    },
                    None => parallelism == 2,
                }
            }
        }),
{
}

/// A number is what its digits say: those in front count for as many tens as there are digits behind.
pub proof fn law_digits_have_places(front: Seq<char>, back: Seq<char>)
    requires
        forall|i: int| 0 <= i < front.len() ==> is_digit(#[trigger] front[i]),
        forall|i: int| 0 <= i < back.len() ==> is_digit(#[trigger] back[i]),
    ensures
        natural(front + back) == natural(front) * vstd::arithmetic::power::pow(
            10,
            back.len(),
        ) + natural(back),
        back.len() == 1 ==> natural(back) == back[0] as int - '0' as int,
    decreases back.len(),
{
    vstd::arithmetic::power::lemma_pow0(10);
    if back.len() == 0 {
        assert(front + back =~= front);
        assert(natural(front) * 1 == natural(front)) by (nonlinear_arith);
    } else {
        let rest = back.drop_last();
        law_digits_have_places(front, rest);
        assert((front + back).drop_last() =~= front + rest);
        assert((front + back).last() == back.last());
        let head = natural(front) as int;
        let places = vstd::arithmetic::power::pow(10, rest.len());
        reveal(vstd::arithmetic::power::pow);
        assert(vstd::arithmetic::power::pow(10, back.len()) == 10 * places);
        assert(10 * (head * places) == head * (10 * places)) by (nonlinear_arith);
        assert(is_digit(back[back.len() - 1]));
    }
}

/// A text is a number with a sign in front or without, and nothing else is one.
pub proof fn law_numbers_are_digits(text: Seq<char>)
    ensures
        is_natural(text) ==> unsigned(text) == Some(natural(text)) && integer(text) == natural(text),
        is_natural(text) ==> unsigned(seq!['+'] + text) == Some(natural(text)),
        is_natural(text) ==> integer(seq!['-'] + text) == -natural(text),
        text.len() == 0 ==> unsigned(text) is None,
        text.len() > 0 && text[0] != '+' && !is_digit(text[0]) ==> unsigned(text) is None,
        forall|i: int| 0 < i < text.len() && !is_digit(#[trigger] text[i]) ==> unsigned(text) is None,
{
    assert((seq!['+'] + text).drop_first() =~= text);
    assert((seq!['-'] + text).drop_first() =~= text);
    if is_natural(text) {
        assert(is_digit(text[0]));
    }
    if text.len() > 0 && text[0] != '+' && !is_digit(text[0]) {
        assert(!is_natural(text));
    }
    assert forall|i: int| 0 < i < text.len() && !is_digit(#[trigger] text[i]) implies unsigned(
        text,
    ) is None by {
        assert(text.drop_first()[i - 1] == text[i]);
    }
}

/// A message tells what it is about in the words of whoever has written it.
pub proof fn law_messages_name_their_subject(text: Seq<char>, error: ConfigErrorView)
    ensures
        ConfigErrorView::InvalidCrateName(text).message() == "invalid crate name: "@ + text,
        ConfigErrorView::NoLiteral(text).message() == text + " expect literal value"@,
        ConfigErrorView::ParallelismRange(text).message() == text,
        TestErrorView::Arguments(text).message() == text,
        TestErrorView::Function(text).message() == text,
        TestErrorView::Config(error).message() == error.message(),
        TestErrorView::NotAsync(text).message()
            == "only asynchronous function can be tagged with #["@ + text + ":test]"@,
{
}

} // verus!
