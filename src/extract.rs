use vstd::prelude::*;
use crate::web_url::{WebUrl, domain_root, resolved};

verus! {

/// One attribute of a start tag.
pub struct TagAttribute {
    pub name: String,
    pub value: String,
}

/// One token of an HTML document, as far as link extraction reads it.
pub enum HtmlToken {
    StartTag { name: String, attributes: Vec<TagAttribute> },
    EndTag { name: String },
    Text(String),
    Other,
}

/// A link found in a document: its anchor text and its reference as written.
pub struct RawLink {
    pub text: String,
    pub href: String,
}

impl View for RawLink {
    type V = (Seq<char>, Seq<char>);

    open spec fn view(&self) -> (Seq<char>, Seq<char>) {
        (self.text@, self.href@)
    }
}

/// A link whose reference has been resolved to an absolute URL.
pub struct LabeledUrl {
    pub text: String,
    pub url: WebUrl,
}

impl View for LabeledUrl {
    type V = (Seq<char>, Seq<char>);

    open spec fn view(&self) -> (Seq<char>, Seq<char>) {
        (self.text@, self.url@)
    }
}

/// A reference that is neither an absolute URL nor a relative one.
pub struct MalformedLink {
    pub href: String,
}

/// Completed links (text, reference) and the anchor being read, if any.
pub type ScanState = (Seq<(Seq<char>, Seq<char>)>, Option<(Seq<char>, Seq<char>)>);

pub open spec fn anchor_name() -> Seq<char> {
    seq!['a']
}

pub open spec fn href_name() -> Seq<char> {
    seq!['h', 'r', 'e', 'f']
}

/// The value of the last `href` among a tag's attributes.
pub open spec fn href_of(attrs: Seq<TagAttribute>) -> Option<Seq<char>>
    decreases attrs.len(),
{
    if attrs.len() == 0 {
        None
    } else if attrs.last().name@ == href_name() {
        Some(attrs.last().value@)
    } else {
        href_of(attrs.drop_last())
    }
}

/// What one token does to the scan: an anchor start tag with an `href`
/// opens a new anchor with empty text, text is appended to an open anchor,
/// and an anchor end tag completes the open anchor.
pub open spec fn scan_step(s: ScanState, t: HtmlToken) -> ScanState {
    match t {
        HtmlToken::StartTag { name, attributes } => {
            if name@ == anchor_name() {
                match href_of(attributes@) {
                    Some(h) => (s.0, Some((Seq::empty(), h))),
                    None => s,
                }
            } else {
                s
            }
        },
        HtmlToken::EndTag { name } => {
            if name@ == anchor_name() {
                match s.1 {
                    Some(open) => (s.0.push(open), None),
                    None => s,
                }
            } else {
                s
            }
        },
        HtmlToken::Text(text) => match s.1 {
            Some(open) => (s.0, Some((open.0 + text@, open.1))),
            None => s,
        },
        HtmlToken::Other => s,
    }
}

/// The scan of a whole token sequence, from no links and no open anchor.
pub open spec fn scan(tokens: Seq<HtmlToken>) -> ScanState
    decreases tokens.len(),
{
    if tokens.len() == 0 {
        (Seq::empty(), None)
    } else {
        scan_step(scan(tokens.drop_last()), tokens.last())
    }
}

/// The links of a document in the order their anchors close; an anchor
/// left open at the end contributes nothing.
pub open spec fn anchor_links(tokens: Seq<HtmlToken>) -> Seq<(Seq<char>, Seq<char>)> {
    scan(tokens).0
}

/// Resolves each (text, reference) against `root`, in order; the first
/// reference that does not resolve is the error.
pub open spec fn resolve_all(root: Seq<char>, raw: Seq<(Seq<char>, Seq<char>)>) -> Result<
    Seq<(Seq<char>, Seq<char>)>,
    Seq<char>,
>
    decreases raw.len(),
{
    if raw.len() == 0 {
        Ok(Seq::empty())
    } else {
        match resolve_all(root, raw.drop_last()) {
            Err(h) => Err(h),
            Ok(done) => match resolved(root, raw.last().1) {
                Some(u) => Ok(done.push((raw.last().0, u))),
                None => Err(raw.last().1),
            },
        }
    }
}

/// The links of a document fetched from `base`, resolved against its
/// domain root.
pub open spec fn extracted(base: Seq<char>, tokens: Seq<HtmlToken>) -> Result<
    Seq<(Seq<char>, Seq<char>)>,
    Seq<char>,
> {
    resolve_all(domain_root(base), anchor_links(tokens))
}

/// What `get_links` hands back, seen through views.
pub open spec fn links_outcome(r: Result<Vec<LabeledUrl>, MalformedLink>) -> Result<
    Seq<(Seq<char>, Seq<char>)>,
    Seq<char>,
> {
    match r {
        Ok(v) => Ok(v@.map_values(|l: LabeledUrl| l@)),
        Err(e) => Err(e.href@),
    }
}

fn is_anchor_name(s: &String) -> (r: bool)
    ensures
        r == (s@ == anchor_name()),
{
    let a = String::from_str("a");
    proof {
        reveal_strlit("a");
        assert("a"@ =~= anchor_name());
    }
    *s == a
}

fn is_href_name(s: &String) -> (r: bool)
    ensures
        r == (s@ == href_name()),
{
    let h = String::from_str("href");
    proof {
        reveal_strlit("href");
        assert("href"@ =~= href_name());
    }
    *s == h
}

/// The value of the last `href` attribute.
fn find_href(attrs: &Vec<TagAttribute>) -> (r: Option<String>)
    ensures
        match r {
            Some(h) => href_of(attrs@) == Some(h@),
            None => href_of(attrs@) is None,
        },
{
    let mut found: Option<String> = None;
    let mut i: usize = 0;
    while i < attrs.len()
        invariant
            i <= attrs@.len(),
            match found {
                Some(h) => href_of(attrs@.take(i as int)) == Some(h@),
                None => href_of(attrs@.take(i as int)) is None,
            },
        decreases attrs@.len() - i,
    {
        assert(attrs@.take(i as int + 1).drop_last() =~= attrs@.take(i as int));
        assert(attrs@.take(i as int + 1).last() == attrs@[i as int]);
        if is_href_name(&attrs[i].name) {
            found = Some(attrs[i].value.clone());
        }
        i = i + 1;
    }
    assert(attrs@.take(attrs@.len() as int) =~= attrs@);
    found
}

/// The parse-time state of link extraction for one document.
pub struct AnchorAccumulator {
    links: Vec<RawLink>,
    open: Option<RawLink>,
}

impl View for AnchorAccumulator {
    type V = ScanState;

    closed spec fn view(&self) -> ScanState {
        (
            self.links@.map_values(|l: RawLink| l@),
            match self.open {
                Some(l) => Some(l@),
                None => None,
            },
        )
    }
}

impl AnchorAccumulator {
    /// No links and no open anchor.
    pub fn new() -> (r: AnchorAccumulator)
        ensures
            r@ == scan(Seq::empty()),
    {
        let r = AnchorAccumulator { links: Vec::new(), open: None };
        assert(r@.0 =~= Seq::empty());
        r
    }

    /// Takes one token into account.
    pub fn process_token(&mut self, token: &HtmlToken)
        ensures
            final(self)@ == scan_step(old(self)@, *token),
    {
        match token {
            HtmlToken::StartTag { name, attributes } => {
                if is_anchor_name(name) {
                    match find_href(attributes) {
                        Some(h) => {
                            self.open = Some(RawLink { text: String::new(), href: h });
                        },
                        None => {},
                    }
                }
            },
            HtmlToken::EndTag { name } => {
                if is_anchor_name(name) {
                    let open = self.open.take();
                    match open {
                        Some(l) => {
                            self.links.push(l);
                            assert(self@.0 =~= old(self)@.0.push(l@));
                        },
                        None => {},
                    }
                }
            },
            HtmlToken::Text(text) => {
                let open = self.open.take();
                match open {
                    Some(mut l) => {
                        l.text.append(text.as_str());
                        self.open = Some(l);
                    },
                    None => {},
                }
            },
            HtmlToken::Other => {},
        }
    }

    /// The completed links, in the order their anchors closed.
    pub fn into_links(self) -> (r: Vec<RawLink>)
        ensures
            r@.map_values(|l: RawLink| l@) == self@.0,
    {
        self.links
    }
}

/// Scans a token sequence for anchors.
pub fn scan_tokens(tokens: &Vec<HtmlToken>) -> (r: Vec<RawLink>)
    ensures
        r@.map_values(|l: RawLink| l@) == anchor_links(tokens@),
{
    let mut acc = AnchorAccumulator::new();
    assert(tokens@.take(0) =~= Seq::<HtmlToken>::empty());
    let mut i: usize = 0;
    while i < tokens.len()
        invariant
            i <= tokens@.len(),
            acc@ == scan(tokens@.take(i as int)),
        decreases tokens@.len() - i,
    {
        assert(tokens@.take(i as int + 1).drop_last() =~= tokens@.take(i as int));
        acc.process_token(&tokens[i]);
        i = i + 1;
    }
    assert(tokens@.take(tokens@.len() as int) =~= tokens@);
    acc.into_links()
}

/// Extracts the links of a document fetched from `url`: anchors with an
/// `href`, their text, and their reference resolved against the page's
/// domain root. Fails on the first reference that is malformed.
pub fn get_links(url: &WebUrl, page: &Vec<HtmlToken>) -> (r: Result<Vec<LabeledUrl>, MalformedLink>)
    ensures
        links_outcome(r) == extracted(url@, page@),
{
    let root = url.domain_root();
    let raw = scan_tokens(page);
    let ghost raw_model = raw@.map_values(|l: RawLink| l@);
    let mut out: Vec<LabeledUrl> = Vec::new();
    assert(raw_model.take(0) =~= Seq::<(Seq<char>, Seq<char>)>::empty());
    assert(out@.map_values(|l: LabeledUrl| l@) =~= Seq::<(Seq<char>, Seq<char>)>::empty());
    let mut i: usize = 0;
    while i < raw.len()
        invariant
            i <= raw@.len(),
            raw_model == raw@.map_values(|l: RawLink| l@),
            raw_model == anchor_links(page@),
            root@ == domain_root(url@),
            resolve_all(root@, raw_model.take(i as int)) == Ok::<
                Seq<(Seq<char>, Seq<char>)>,
                Seq<char>,
            >(out@.map_values(|l: LabeledUrl| l@)),
        decreases raw@.len() - i,
    {
        assert(raw_model.take(i as int + 1).drop_last() =~= raw_model.take(i as int));
        let link = &raw[i];
        match root.resolve(link.href.as_str()) {
            Some(u) => {
                let ghost before = out@;
                out.push(LabeledUrl { text: link.text.clone(), url: u });
                assert(out@.map_values(|l: LabeledUrl| l@) =~= before.map_values(
                    |l: LabeledUrl| l@,
                ).push((link.text@, u@)));
            },
            None => {
                let e = MalformedLink { href: link.href.clone() };
                proof {
                    lemma_resolve_all_stops(root@, raw_model, i as int);
                }
                return Err(e);
            },
        }
        i = i + 1;
    }
    assert(raw_model.take(raw@.len() as int) =~= raw_model);
    Ok(out)
}

/// Whether a token is a start or end tag named `a`.
pub open spec fn is_anchor_tag(t: HtmlToken) -> bool {
    match t {
        HtmlToken::StartTag { name, .. } => name@ == anchor_name(),
        HtmlToken::EndTag { name } => name@ == anchor_name(),
        _ => false,
    }
}

/// The concatenation of the text tokens of a sequence; tags add nothing.
pub open spec fn text_of(tokens: Seq<HtmlToken>) -> Seq<char>
    decreases tokens.len(),
{
    if tokens.len() == 0 {
        Seq::empty()
    } else {
        text_of(tokens.drop_last()) + match tokens.last() {
            HtmlToken::Text(t) => t@,
            _ => Seq::empty(),
        }
    }
}

proof fn lemma_scan_without_anchor_tags(prefix: Seq<HtmlToken>, middle: Seq<HtmlToken>, k: int)
    requires
        0 <= k <= middle.len(),
        forall|j: int| 0 <= j < middle.len() ==> !is_anchor_tag(#[trigger] middle[j]),
    ensures
        scan(prefix + middle.take(k)) == (
            scan(prefix).0,
            match scan(prefix).1 {
                Some(o) => Some((o.0 + text_of(middle.take(k)), o.1)),
                None => None,
            },
        ),
    decreases k,
{
    if k == 0 {
        assert(prefix + middle.take(0) =~= prefix);
        assert(text_of(middle.take(0)) =~= Seq::<char>::empty());
        match scan(prefix).1 {
            Some(o) => {
                assert(o.0 + Seq::<char>::empty() =~= o.0);
            },
            None => {},
        }
    } else {
        lemma_scan_without_anchor_tags(prefix, middle, k - 1);
        let whole = prefix + middle.take(k);
        assert(whole.drop_last() =~= prefix + middle.take(k - 1));
        assert(whole.last() == middle[k - 1]);
        assert(middle.take(k).drop_last() =~= middle.take(k - 1));
        assert(!is_anchor_tag(middle[k - 1]));
        match scan(prefix).1 {
            Some(o) => {
                let added = match middle[k - 1] {
                    HtmlToken::Text(t) => t@,
                    _ => Seq::<char>::empty(),
                };
                assert(o.0 + text_of(middle.take(k - 1)) + added =~= o.0 + (text_of(
                    middle.take(k - 1),
                ) + added));
                if added.len() == 0 {
                    assert(o.0 + text_of(middle.take(k - 1)) + added =~= o.0 + text_of(
                        middle.take(k - 1),
                    ));
                }
            },
            None => {},
        }
    }
}

/// An anchor with an `href`, closed after tokens among which no anchor tag
/// stands, yields one link: its text is all the text between the two tags,
/// whatever other markup stands among it.
pub proof fn lemma_anchor_text_concatenated(
    start: HtmlToken,
    middle: Seq<HtmlToken>,
    end: HtmlToken,
    href: Seq<char>,
)
    requires
        start matches HtmlToken::StartTag { name, attributes } && name@ == anchor_name()
            && href_of(attributes@) == Some(href),
        end matches HtmlToken::EndTag { name } && name@ == anchor_name(),
        forall|j: int| 0 <= j < middle.len() ==> !is_anchor_tag(#[trigger] middle[j]),
    ensures
        anchor_links(seq![start] + middle + seq![end]) == seq![(text_of(middle), href)],
{
    let first = seq![start];
    assert(first.drop_last() =~= Seq::<HtmlToken>::empty());
    lemma_scan_without_anchor_tags(first, middle, middle.len() as int);
    assert(middle.take(middle.len() as int) =~= middle);
    let all = first + middle + seq![end];
    assert(all.drop_last() =~= first + middle);
    assert(all.last() == end);
    assert(scan(first) == scan_step(scan(Seq::<HtmlToken>::empty()), start));
    assert(scan(all) == scan_step(scan(first + middle), end));
    assert(Seq::<char>::empty() + text_of(middle) =~= text_of(middle));
    assert(Seq::<(Seq<char>, Seq<char>)>::empty().push((text_of(middle), href)) =~= seq![
        (text_of(middle), href),
    ]);
}

/// An anchor without an `href`, with no anchor tag before its end tag,
/// yields no link.
pub proof fn lemma_anchor_without_href_ignored(start: HtmlToken, middle: Seq<HtmlToken>, end: HtmlToken)
    requires
        start matches HtmlToken::StartTag { name, attributes } && name@ == anchor_name()
            && href_of(attributes@) is None,
        end matches HtmlToken::EndTag { name } && name@ == anchor_name(),
        forall|j: int| 0 <= j < middle.len() ==> !is_anchor_tag(#[trigger] middle[j]),
    ensures
        anchor_links(seq![start] + middle + seq![end]) == Seq::<(Seq<char>, Seq<char>)>::empty(),
{
    let first = seq![start];
    assert(first.drop_last() =~= Seq::<HtmlToken>::empty());
    lemma_scan_without_anchor_tags(first, middle, middle.len() as int);
    assert(middle.take(middle.len() as int) =~= middle);
    let all = first + middle + seq![end];
    assert(all.drop_last() =~= first + middle);
    assert(all.last() == end);
    assert(scan(first) == scan_step(scan(Seq::<HtmlToken>::empty()), start));
    assert(scan(all) == scan_step(scan(first + middle), end));
}

/// Extraction depends on the base URL and the tokens alone: extracting twice
/// from the same document gives the same links in the same order.
pub proof fn lemma_extraction_is_pure(
    base1: Seq<char>,
    tokens1: Seq<HtmlToken>,
    base2: Seq<char>,
    tokens2: Seq<HtmlToken>,
)
    requires
        base1 == base2,
        tokens1 == tokens2,
    ensures
        extracted(base1, tokens1) == extracted(base2, tokens2),
{
}

proof fn lemma_resolve_all_stops(root: Seq<char>, raw: Seq<(Seq<char>, Seq<char>)>, i: int)
    requires
        0 <= i < raw.len(),
        resolve_all(root, raw.take(i)) is Ok,
        resolved(root, raw[i].1) is None,
    ensures
        resolve_all(root, raw) == Err::<Seq<(Seq<char>, Seq<char>)>, Seq<char>>(raw[i].1),
    decreases raw.len() - i,
{
    if i + 1 == raw.len() {
        assert(raw.drop_last() =~= raw.take(i));
    } else {
        let shorter = raw.drop_last();
        assert(shorter.take(i) =~= raw.take(i));
        lemma_resolve_all_stops(root, shorter, i);
    }
}

} // verus!
