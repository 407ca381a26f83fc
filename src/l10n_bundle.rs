use fluent_bundle::{FluentArgs, FluentMessage, FluentResource};
use fluent_syntax::ast::Pattern;
use unic_langid::LanguageIdentifier;
use vstd::prelude::*;
use vstd::utf8::{decode_utf8, valid_utf8};

verus! {

#[verifier::external_type_specification]
#[verifier::external_body]
#[verifier::reject_recursive_types(R)]
#[verifier::reject_recursive_types(M)]
pub struct ExFluentBundle<R, M>(fluent_bundle::bundle::FluentBundle<R, M>);

#[verifier::external_type_specification]
#[verifier::external_body]
pub struct ExIntlLangMemoizer(intl_memoizer::IntlLangMemoizer);

#[verifier::external_type_specification]
#[verifier::external_body]
pub struct ExFluentResource(FluentResource);

#[verifier::external_type_specification]
#[verifier::external_body]
pub struct ExLanguageIdentifier(LanguageIdentifier);

#[verifier::external_type_specification]
#[verifier::external_body]
#[verifier::reject_recursive_types(S)]
pub struct ExPattern<S>(Pattern<S>);

#[verifier::external_type_specification]
#[verifier::external_body]
pub struct ExFluentMessage<'m>(FluentMessage<'m>);

#[verifier::external_type_specification]
#[verifier::external_body]
pub struct ExFluentArgs<'a>(FluentArgs<'a>);

/// Whether a language tag is one that unic_langid accepts.
pub uninterp spec fn langid_parses(tag: Seq<char>) -> bool;

/// Whether a message-source text parses without error at run time.
pub uninterp spec fn resource_parses(text: Seq<char>) -> bool;

/// Relies on `String::from_utf8`: it succeeds exactly on valid UTF-8, and
/// then holds the characters that the bytes encode.
#[verifier::external_body]
fn text_of_bytes(bytes: &[u8]) -> (r: Result<String, String>)
    ensures
        r is Ok <==> valid_utf8(bytes@),
        r matches Ok(s) ==> s@ == decode_utf8(bytes@),
{
    String::from_utf8(bytes.to_vec()).map_err(|e| e.to_string())
}

/// Relies on unic_langid's `LanguageIdentifier` parser: whether a tag parses
/// depends on the tag alone.
#[verifier::external_body]
fn parse_langid(tag: &str) -> (r: Result<LanguageIdentifier, String>)
    ensures
        r is Ok <==> langid_parses(tag@),
{
    tag.parse::<LanguageIdentifier>().map_err(|e| format!("{e:?}"))
}

/// A formatting engine over owned resources.
pub type ResourceBundle = fluent_bundle::FluentBundle<FluentResource>;

/// What a bundle holds of one message: whether it has a value, and the ids
/// of its attributes.
pub struct MessageShape {
    pub has_value: bool,
    pub attributes: Set<Seq<char>>,
}

/// The messages that a fresh bundle holds after the resource of `text` is
/// added: for each id, its first definition.
pub uninterp spec fn text_messages(text: Seq<char>) -> Map<Seq<char>, MessageShape>;

/// Adding the resource of `text` to a fresh bundle reports no error, that is,
/// no message or term id is defined twice in it.
pub uninterp spec fn text_adds_cleanly(text: Seq<char>) -> bool;

/// The source text that a resource holds.
pub uninterp spec fn resource_text(res: FluentResource) -> Seq<char>;

/// The messages that a bundle holds, by id.
pub uninterp spec fn bundle_messages(b: ResourceBundle) -> Map<
    Seq<char>,
    MessageShape,
>;

/// The bundle holds no entry at all, neither message nor term.
pub uninterp spec fn bundle_is_fresh(b: ResourceBundle) -> bool;

/// What a message holds.
pub uninterp spec fn message_shape(m: FluentMessage) -> MessageShape;

/// Relies on `FluentResource::try_new`: whether a text parses without error
/// depends on the text alone; the resource keeps the text as its source.
#[verifier::external_body]
fn new_resource(text: String) -> (r: Result<FluentResource, String>)
    ensures
        r is Ok <==> resource_parses(text@),
        r matches Ok(res) ==> resource_text(res) == text@,
{
    FluentResource::try_new(text).map_err(|e| format!("{:?}", e.1))
}

/// Relies on `FluentBundle::new`: an empty bundle for one locale.
#[verifier::external_body]
fn new_bundle(lang: LanguageIdentifier) -> (r: ResourceBundle)
    ensures
        bundle_is_fresh(r),
{
    fluent_bundle::FluentBundle::new(vec![lang])
}

/// Relies on `FluentBundle::add_resource`: each entry whose id is not yet taken
/// is kept, and an error is reported for each one whose id is.
#[verifier::external_body]
fn add_resource(bundle: &mut ResourceBundle, res: FluentResource) -> (r: Result<(), String>)
    ensures
        bundle_is_fresh(*old(bundle)) ==> (r is Ok <==> text_adds_cleanly(resource_text(res))),
        bundle_is_fresh(*old(bundle)) ==> bundle_messages(
            *final(bundle),
        ) == text_messages(resource_text(res)),
{
    bundle.add_resource(res).map_err(|e| format!("{e:?}"))
}

/// Relies on `FluentBundle::get_message`: the message of an id, if any.
#[verifier::external_body]
fn get_message<'b>(bundle: &'b ResourceBundle, id: &str) -> (r: Option<FluentMessage<'b>>)
    ensures
        r is Some <==> bundle_messages(*bundle).contains_key(id@),
        r matches Some(m) ==> message_shape(m) == bundle_messages(*bundle)[id@],
{
    bundle.get_message(id)
}

/// Relies on `FluentMessage::value`: the message's own pattern, if any.
#[verifier::external_body]
fn message_value<'b>(message: &FluentMessage<'b>) -> (r: Option<&'b Pattern<&'b str>>)
    ensures
        r is Some <==> message_shape(*message).has_value,
{
    message.value()
}

/// Relies on `FluentMessage::get_attribute`: the pattern of an attribute, if any.
#[verifier::external_body]
fn message_attribute<'b>(message: &FluentMessage<'b>, attr: &str) -> (r: Option<&'b Pattern<&'b str>>)
    ensures
        r is Some <==> message_shape(*message).attributes.contains(attr@),
{
    message.get_attribute(attr).map(|a| a.value())
}

/// Relies on `FluentBundle::format_pattern`: the rendered text, and the
/// resolution errors, each as its `Debug` text.
#[verifier::external_body]
fn format_pattern(
    bundle: &ResourceBundle,
    pattern: &Pattern<&str>,
    args: Option<&FluentArgs>,
) -> (String, Vec<String>) {
    let mut errors = vec![];
    let value = bundle.format_pattern(pattern, args, &mut errors);
    (value.to_string(), errors.iter().map(|e| format!("{e:?}")).collect())
}

/// Relies on `FluentArgs::iter`: each argument's name, and its value's
/// `Debug` text.
#[verifier::external_body]
fn argument_pairs(args: &FluentArgs) -> Vec<(String, String)> {
    args.iter().map(|(k, v)| (k.to_string(), format!("{:?}", v))).collect()
}

/// Each argument as `name=value`.
pub fn argument_list(pairs: &Vec<(String, String)>) -> (r: Vec<String>)
    ensures
        r.len() == pairs.len(),
        forall|i: int|
            0 <= i < pairs.len() ==> (#[trigger] r[i])@ == pairs[i].0@ + "="@ + pairs[i].1@,
{
    let mut r: Vec<String> = Vec::new();
    let mut i: usize = 0;
    while i < pairs.len()
        invariant
            i <= pairs.len(),
            r.len() == i,
            forall|k: int| 0 <= k < i ==> (#[trigger] r[k])@ == pairs[k].0@ + "="@ + pairs[k].1@,
        decreases pairs.len() - i,
    {
        let mut t = pairs[i].0.clone();
        t.append("=");
        t.append(pairs[i].1.as_str());
        r.push(t);
        i = i + 1;
    }
    r
}

/// The parts joined, with `sep` between each two.
pub open spec fn joined_with(parts: Seq<Seq<char>>, sep: Seq<char>) -> Seq<char>
    decreases parts.len(),
{
    if parts.len() == 0 {
        Seq::empty()
    } else if parts.len() == 1 {
        parts[0]
    } else {
        joined_with(parts.drop_last(), sep) + sep + parts.last()
    }
}

/// The parts joined, with `sep` between each two.
pub fn join(parts: &Vec<String>, sep: &str) -> (r: String)
    ensures
        r@ == joined_with(parts.deep_view(), sep@),
{
    let ghost pv = parts.deep_view();
    let mut r = String::new();
    let mut i: usize = 0;
    while i < parts.len()
        invariant
            i <= parts.len(),
            pv == parts.deep_view(),
            r@ == joined_with(pv.take(i as int), sep@),
        decreases parts.len() - i,
    {
        proof {
            assert(pv.take(i + 1).drop_last() =~= pv.take(i as int));
            assert(pv[i as int] == parts[i as int]@);
        }
        if i > 0 {
            r.append(sep);
        }
        r.append(parts[i].as_str());
        proof {
            if i == 0 {
                assert(pv.take(1)[0] == pv[0]);
                assert(r@ =~= pv.take(1)[0]);
            }
        }
        i = i + 1;
    }
    assert(pv.take(i as int) =~= pv);
    r
}

/// The error of a lookup of a message that the bundle does not hold.
pub open spec fn missing_message(id: Seq<char>) -> Seq<char> {
    "Could not find "@ + id
}

/// The error of a lookup of an attribute that the message does not have.
pub open spec fn missing_attribute(id: Seq<char>, attr: Seq<char>) -> Seq<char> {
    "Could not find attribute '"@ + attr + "' for message '"@ + id + "'"@
}

/// The error of a lookup of the value of a message that has none.
pub open spec fn missing_value(id: Seq<char>) -> Seq<char> {
    "Could not find value for '"@ + id + "'"@
}

/// What a failed lookup of `id`, and of `attr` within it, may report.
pub open spec fn lookup_error(e: Seq<char>, id: Seq<char>, attr: Option<Seq<char>>) -> bool {
    e == missing_message(id) || match attr {
        Some(a) => e == missing_attribute(id, a),
        None => e == missing_value(id),
    }
}

/// The text that a formatting failure of `id` (and `attr` within it) starts with.
pub open spec fn format_failure_head(id: Seq<char>, attr: Option<Seq<char>>) -> Seq<char> {
    "Invalid format for "@ + match attr {
        Some(a) => "attribute '"@ + a + "' in "@,
        None => Seq::empty(),
    } + "message '"@ + id + "'"@
}

/// The full text of a formatting failure, given the arguments' texts, if any,
/// and the errors' texts.
pub open spec fn format_failure(
    id: Seq<char>,
    attr: Option<Seq<char>>,
    args: Option<Seq<Seq<char>>>,
    errors: Seq<Seq<char>>,
) -> Seq<char> {
    format_failure_head(id, attr) + match args {
        Some(a) => " with args "@ + joined_with(a, ", "@),
        None => Seq::empty(),
    } + ": ["@ + joined_with(errors, ", "@) + "]"@
}

/// `e` reports a formatting failure of `id` (and `attr` within it), with the
/// arguments listed where there were some.
pub open spec fn is_format_failure(
    e: Seq<char>,
    id: Seq<char>,
    attr: Option<Seq<char>>,
    has_args: bool,
) -> bool {
    exists|a: Option<Seq<Seq<char>>>, errs: Seq<Seq<char>>|
        #[trigger] format_failure(id, attr, a, errs) == e && (a is Some <==> has_args)
}

/// The message of a formatting failure.
pub fn format_failure_text(
    id: &str,
    attr: Option<&str>,
    args: Option<&Vec<String>>,
    errors: &Vec<String>,
) -> (r: String)
    ensures
        r@ == format_failure(
            id@,
            match attr {
                Some(a) => Some(a@),
                None => None,
            },
            match args {
                Some(a) => Some(a.deep_view()),
                None => None,
            },
            errors.deep_view(),
        ),
{
    let mut r = String::from_str("Invalid format for ");
    match attr {
        Some(a) => {
            r.append("attribute '");
            r.append(a);
            r.append("' in ");
        },
        None => {},
    }
    r.append("message '");
    r.append(id);
    r.append("'");
    match args {
        Some(a) => {
            r.append(" with args ");
            let list = join(a, ", ");
            r.append(list.as_str());
        },
        None => {},
    }
    r.append(": [");
    let list = join(errors, ", ");
    r.append(list.as_str());
    r.append("]");
    proof {
        let head = format_failure_head(
            id@,
            match attr {
                Some(a) => Some(a@),
                None => None,
            },
        );
        assert(r@ =~= format_failure(
            id@,
            match attr {
                Some(a) => Some(a@),
                None => None,
            },
            match args {
                Some(a) => Some(a.deep_view()),
                None => None,
            },
            errors.deep_view(),
        ));
    }
    r
}

/// The error that a lookup of `id` (and of `attr` within it) gives on a
/// bundle holding `msgs`, or `None` where the lookup succeeds.
pub open spec fn lookup_outcome(
    msgs: Map<Seq<char>, MessageShape>,
    id: Seq<char>,
    attr: Option<Seq<char>>,
) -> Option<Seq<char>> {
    if !msgs.contains_key(id) {
        Some(missing_message(id))
    } else {
        match attr {
            Some(a) => if msgs[id].attributes.contains(a) {
                None
            } else {
                Some(missing_attribute(id, a))
            },
            None => if msgs[id].has_value {
                None
            } else {
                Some(missing_value(id))
            },
        }
    }
}

pub open spec fn opt_str(o: Option<&str>) -> Option<Seq<char>> {
    match o {
        Some(a) => Some(a@),
        None => None,
    }
}

/// The result of a rendering: its text where no error was reported, else the
/// formatting failure.
pub fn finish_format(
    msg: &str,
    attr: Option<&str>,
    value: String,
    errors: &Vec<String>,
    args: Option<&Vec<String>>,
) -> (r: Result<String, String>)
    ensures
        errors.len() == 0 ==> r == Ok::<String, String>(value),
        errors.len() > 0 ==> (r matches Err(e) && e@ == format_failure(
            msg@,
            opt_str(attr),
            match args {
                Some(a) => Some(a.deep_view()),
                None => None,
            },
            errors.deep_view(),
        )),
{
    if errors.len() == 0 {
        Ok(value)
    } else {
        Err(format_failure_text(msg, attr, args, errors))
    }
}

/// A bundle can be made for language `lang` from `bytes`: they are UTF-8,
/// the tag parses, and the text parses and defines no id twice.
pub open spec fn bundle_builds(lang: Seq<char>, bytes: Seq<u8>) -> bool {
    valid_utf8(bytes) && langid_parses(lang) && resource_parses(decode_utf8(bytes))
        && text_adds_cleanly(decode_utf8(bytes))
}

/// One language's messages, ready to be rendered.
pub struct L10nBundle {
    lang: String,
    text: Ghost<Seq<char>>,
    bundle: ResourceBundle,
}

impl L10nBundle {
    /// The bundle holds the messages of the text it was made from.
    #[verifier::type_invariant]
    spec fn holds_text(&self) -> bool {
        bundle_messages(self.bundle) == text_messages(self.text@)
    }

    /// The language tag that the bundle was made for.
    pub closed spec fn language(&self) -> Seq<char> {
        self.lang@
    }

    /// The message-source text that the bundle was made from.
    pub closed spec fn source(&self) -> Seq<char> {
        self.text@
    }

    /// A bundle of the message-source text `bytes` for the language `lang`.
    /// It fails exactly where the bytes are not UTF-8, the tag does not parse,
    /// the text does not parse, or the text defines an id twice.
    pub fn new(lang: &str, bytes: &[u8]) -> (r: Result<Self, String>)
        ensures
            r is Ok <==> bundle_builds(lang@, bytes@),
            r matches Ok(b) ==> b.language() == lang@ && b.source() == decode_utf8(bytes@),
            !valid_utf8(bytes@) ==> (r matches Err(e) && e@.len() >= 34 && e@.take(34)
                == "Could not read ftl string due to: "@),
    {
        let ftl = match text_of_bytes(bytes) {
            Ok(t) => t,
            Err(e) => {
                let mut msg = String::from_str("Could not read ftl string due to: ");
                msg.append(e.as_str());
                proof {
                    reveal_strlit("Could not read ftl string due to: ");
                    assert(msg@.take(34) =~= "Could not read ftl string due to: "@);
                }
                return Err(msg);
            },
        };
        let ghost text = ftl@;
        let lang_id = parse_langid(lang)?;
        let mut bundle = new_bundle(lang_id);
        let resource = new_resource(ftl)?;
        add_resource(&mut bundle, resource)?;
        Ok(L10nBundle { bundle, text: Ghost(text), lang: lang.to_string() })
    }

    pub fn lang(&self) -> (r: &str)
        ensures
            r@ == self.language(),
    {
        self.lang.as_str()
    }

    /// The pattern of message `msg_id`, or of its attribute `attr_id`.
    pub fn try_get_pattern<'a>(&'a self, msg_id: &str, attr_id: Option<&str>) -> (r: Result<
        &'a Pattern<&'a str>,
        String,
    >)
        ensures
            match lookup_outcome(text_messages(self.source()), msg_id@, opt_str(attr_id)) {
                None => r is Ok,
                Some(e) => r matches Err(x) && x@ == e,
            },
    {
        proof {
            use_type_invariant(self);
        }
        let message = match get_message(&self.bundle, msg_id) {
            Some(m) => m,
            None => {
                let mut e = String::from_str("Could not find ");
                e.append(msg_id);
                return Err(e);
            },
        };
        match attr_id {
            Some(attr) => match message_attribute(&message, attr) {
                Some(p) => Ok(p),
                None => {
                    let mut e = String::from_str("Could not find attribute '");
                    e.append(attr);
                    e.append("' for message '");
                    e.append(msg_id);
                    e.append("'");
                    Err(e)
                },
            },
            None => match message_value(&message) {
                Some(p) => Ok(p),
                None => {
                    let mut e = String::from_str("Could not find value for '");
                    e.append(msg_id);
                    e.append("'");
                    Err(e)
                },
            },
        }
    }

    /// Renders a pattern; any resolution error fails the whole call.
    fn format(&self, msg: &str, attr: Option<&str>, pattern: &Pattern<&str>, args: Option<&FluentArgs>) -> (r: Result<String, String>)
        ensures
            r matches Err(e) ==> is_format_failure(e@, msg@, opt_str(attr), args is Some),
    {
        let (value, errors) = format_pattern(&self.bundle, pattern, args);
        match args {
            Some(a) => {
                let list = argument_list(&argument_pairs(a));
                let r = finish_format(msg, attr, value, &errors, Some(&list));
                proof {
                    if errors.len() > 0 {
                        assert(format_failure(msg@, opt_str(attr), Some(list.deep_view()), errors.deep_view()) == r->Err_0@);
                    }
                }
                r
            },
            None => {
                let r = finish_format(msg, attr, value, &errors, None);
                proof {
                    if errors.len() > 0 {
                        assert(format_failure(msg@, opt_str(attr), None, errors.deep_view()) == r->Err_0@);
                    }
                }
                r
            },
        }
    }

    /// Message `id` rendered with `args`: the lookup's error where it fails,
    /// else the rendered text or the formatting failure.
    pub fn msg(&self, id: &str, args: Option<FluentArgs>) -> (r: Result<String, String>)
        ensures
            match lookup_outcome(text_messages(self.source()), id@, None) {
                Some(e) => r matches Err(x) && x@ == e,
                None => r matches Err(x) ==> is_format_failure(x@, id@, None, args is Some),
            },
    {
        let pattern = self.try_get_pattern(id, None)?;
        self.format(id, None, pattern, args.as_ref())
    }

    /// Attribute `attr` of message `msg` rendered with `args`.
    pub fn attr(&self, msg: &str, attr: &str, args: Option<FluentArgs>) -> (r: Result<String, String>)
        ensures
            match lookup_outcome(text_messages(self.source()), msg@, Some(attr@)) {
                Some(e) => r matches Err(x) && x@ == e,
                None => r matches Err(x) ==> is_format_failure(x@, msg@, Some(attr@), args is Some),
            },
    {
        let pattern = self.try_get_pattern(msg, Some(attr))?;
        self.format(msg, Some(attr), pattern, args.as_ref())
    }
}

} // verus!
