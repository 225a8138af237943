//! Notification configuration: per-user ordered pattern rules deciding
//! whether a tournament name should trigger a notification, and the mapping
//! from engine names to the users subscribed to them.
//!
//! Rule patterns are regular expressions; matching is delegated to the regex
//! crate behind trusted wrappers, and every stored pattern is validated when
//! the rule is built.
use vstd::prelude::*;

verus! {

/// Whether `pattern` is a valid regular expression, as `regex::Regex::new`
/// decides it.
pub uninterp spec fn regex_valid(pattern: Seq<char>) -> bool;

/// Whether the regular expression `pattern` matches anywhere in `text`, as
/// `regex::Regex::is_match` decides it.
pub uninterp spec fn regex_accepts(pattern: Seq<char>, text: Seq<char>) -> bool;

/// Relies on regex::Regex::new: whether a pattern compiles is a function of
/// the pattern string alone.
#[verifier::external_body]
fn regex_pattern_valid(pattern: &str) -> (r: bool)
    ensures
        r == regex_valid(pattern@),
{
    regex::Regex::new(pattern).is_ok()
}

/// Relies on regex::Regex::new and regex::Regex::is_match: whether the
/// pattern's automaton finds a match in the text is a function of the two
/// strings alone. Callers hold only validated patterns, so the error arm is
/// dead.
#[verifier::external_body]
fn regex_is_match(pattern: &str, text: &str) -> (r: bool)
    requires
        regex_valid(pattern@),
    ensures
        r == regex_accepts(pattern@, text@),
{
    match regex::Regex::new(pattern) {
        Ok(re) => re.is_match(text),
        Err(_) => false,
    }
}

/// What a matching rule decides.
#[derive(Debug, Clone, Copy, PartialEq, Eq, Structural)]
pub enum NotifyAction {
    Notify,
    Ignore,
}

/// Mathematical content of one rule.
#[verifier::ext_equal]
pub ghost struct RuleView {
    pub pattern: Seq<char>,
    pub action: NotifyAction,
}

/// One pattern rule; the pattern is always a valid regular expression.
#[derive(Debug)]
pub struct NotifyRule {
    pattern: String,
    action: NotifyAction,
}

impl View for NotifyRule {
    type V = RuleView;

    closed spec fn view(&self) -> RuleView {
        RuleView { pattern: self.pattern@, action: self.action }
    }
}

impl NotifyRule {
    #[verifier::type_invariant]
    closed spec fn wf(self) -> bool {
        regex_valid(self.pattern@)
    }

    /// Builds a rule; rejects a pattern that is not a valid regular
    /// expression.
    pub fn new(pattern: String, action: NotifyAction) -> (r: Option<NotifyRule>)
        ensures
            r is Some <==> regex_valid(pattern@),
            r is Some ==> r->Some_0@ == (RuleView { pattern: pattern@, action }),
    {
        if regex_pattern_valid(pattern.as_str()) {
            Some(NotifyRule { pattern, action })
        } else {
            None
        }
    }

    pub fn pattern(&self) -> (r: &str)
        ensures
            r@ == self@.pattern,
    {
        self.pattern.as_str()
    }

    pub fn action(&self) -> (r: NotifyAction)
        ensures
            r == self@.action,
    {
        self.action
    }
}

impl Clone for NotifyRule {
    fn clone(&self) -> (r: Self)
        ensures
            r@ == self@,
    {
        proof {
            use_type_invariant(self);
        }
        NotifyRule { pattern: self.pattern.clone(), action: self.action }
    }
}

/// First-match-wins policy: the first rule whose pattern matches the name
/// decides; with no matching rule the default is to notify.
pub open spec fn spec_should_notify(rules: Seq<RuleView>, name: Seq<char>) -> bool
    decreases rules.len(),
{
    if rules.len() == 0 {
        true
    } else if regex_accepts(rules.first().pattern, name) {
        rules.first().action is Notify
    } else {
        spec_should_notify(rules.drop_first(), name)
    }
}

pub open spec fn rules_view(rs: Seq<NotifyRule>) -> Seq<RuleView> {
    rs.map_values(|r: NotifyRule| r@)
}

/// An ordered list of rules for one user; order is semantically significant.
#[derive(Debug)]
pub struct TournamentRules {
    pub rules: Vec<NotifyRule>,
}

impl View for TournamentRules {
    type V = Seq<RuleView>;

    open spec fn view(&self) -> Seq<RuleView> {
        rules_view(self.rules@)
    }
}

impl TournamentRules {
    pub fn new(rules: Vec<NotifyRule>) -> (r: Self)
        ensures
            r@ == rules_view(rules@),
    {
        TournamentRules { rules }
    }

    /// Evaluates the rules in order against a tournament name: the first rule
    /// whose pattern matches decides; with no match, notify.
    pub fn notify_for_tournament(&self, tournament_name: &str) -> (r: bool)
        ensures
            r == spec_should_notify(self@, tournament_name@),
    {
        let n = self.rules.len();
        let mut i: usize = 0;
        assert(self@.skip(0) =~= self@);
        while i < n
            invariant
                0 <= i <= n == self.rules@.len(),
                spec_should_notify(self@, tournament_name@) == spec_should_notify(
                    self@.skip(i as int),
                    tournament_name@,
                ),
            decreases n - i,
        {
            let rule = &self.rules[i];
            proof {
                use_type_invariant(rule);
                assert(self@.skip(i as int).first() == rule@);
                assert(self@.skip(i as int).drop_first() =~= self@.skip(i + 1));
            }
            if regex_is_match(rule.pattern(), tournament_name) {
                return rule.action() == NotifyAction::Notify;
            }
            i = i + 1;
        }
        assert(self@.skip(n as int) =~= Seq::<RuleView>::empty());
        true
    }
}

impl Clone for TournamentRules {
    fn clone(&self) -> (r: Self)
        ensures
            r@ == self@,
    {
        let mut rules: Vec<NotifyRule> = Vec::new();
        let n = self.rules.len();
        let mut i: usize = 0;
        while i < n
            invariant
                0 <= i <= n == self.rules@.len(),
                rules@.len() == i,
                forall|k: int| 0 <= k < i ==> rules@[k]@ == self.rules@[k]@,
            decreases n - i,
        {
            rules.push(self.rules[i].clone());
            i = i + 1;
        }
        let r = TournamentRules { rules };
        proof {
            assert(r@ =~= self@);
        }
        r
    }
}

fn tournament_rules_eq(a: &TournamentRules, b: &TournamentRules) -> (r: bool)
    ensures
        r == (a@ == b@),
{
    if a.rules.len() != b.rules.len() {
        assert(a@.len() != b@.len());
        return false;
    }
    let n = a.rules.len();
    let mut i: usize = 0;
    while i < n
        invariant
            0 <= i <= n,
            n == a.rules@.len() == b.rules@.len(),
            forall|k: int| 0 <= k < i ==> a@[k] == b@[k],
        decreases n - i,
    {
        let ra = &a.rules[i];
        let rb = &b.rules[i];
        let same = ra.pattern == rb.pattern && ra.action == rb.action;
        if !same {
            assert(a@[i as int] != b@[i as int]);
            return false;
        }
        assert(a@[i as int] =~= b@[i as int]);
        i = i + 1;
    }
    assert(a@ =~= b@);
    true
}

impl PartialEq for TournamentRules {
    fn eq(&self, other: &Self) -> (r: bool) {
        tournament_rules_eq(self, other)
    }
}

impl vstd::std_specs::cmp::PartialEqSpecImpl for TournamentRules {
    open spec fn obeys_eq_spec() -> bool {
        true
    }

    open spec fn eq_spec(&self, other: &Self) -> bool {
        self@ == other@
    }
}

/// Mathematical content of one user's subscription.
#[verifier::ext_equal]
pub ghost struct UserView {
    pub user_id: Seq<char>,
    pub rules: Seq<RuleView>,
}

/// One user and the rules that gate that user's notifications.
#[derive(Debug)]
pub struct UserNotifyConfig {
    pub user_id: String,
    pub rules: TournamentRules,
}

impl View for UserNotifyConfig {
    type V = UserView;

    open spec fn view(&self) -> UserView {
        UserView { user_id: self.user_id@, rules: self.rules@ }
    }
}

impl Clone for UserNotifyConfig {
    fn clone(&self) -> (r: Self)
        ensures
            r@ == self@,
    {
        let r = UserNotifyConfig { user_id: self.user_id.clone(), rules: self.rules.clone() };
        proof {
            assert(r@ =~= self@);
        }
        r
    }
}

pub open spec fn users_view(us: Seq<UserNotifyConfig>) -> Seq<UserView> {
    us.map_values(|u: UserNotifyConfig| u@)
}

fn users_eq(a: &Vec<UserNotifyConfig>, b: &Vec<UserNotifyConfig>) -> (r: bool)
    ensures
        r == (users_view(a@) == users_view(b@)),
{
    if a.len() != b.len() {
        assert(users_view(a@).len() != users_view(b@).len());
        return false;
    }
    let n = a.len();
    let mut i: usize = 0;
    while i < n
        invariant
            0 <= i <= n,
            n == a@.len() == b@.len(),
            forall|k: int| 0 <= k < i ==> users_view(a@)[k] == users_view(b@)[k],
        decreases n - i,
    {
        let same = a[i].user_id == b[i].user_id && a[i].rules == b[i].rules;
        if !same {
            assert(users_view(a@)[i as int] != users_view(b@)[i as int]);
            return false;
        }
        assert(users_view(a@)[i as int] =~= users_view(b@)[i as int]);
        i = i + 1;
    }
    assert(users_view(a@) =~= users_view(b@));
    true
}

/// The whole notification configuration: for each configured engine name,
/// the users subscribed to it, in a fixed order.
#[derive(Debug)]
pub struct NotifyConfig {
    pub engines: Vec<(String, Vec<UserNotifyConfig>)>,
}

impl View for NotifyConfig {
    type V = Seq<(Seq<char>, Seq<UserView>)>;

    open spec fn view(&self) -> Seq<(Seq<char>, Seq<UserView>)> {
        self.engines@.map_values(
            |e: (String, Vec<UserNotifyConfig>)| (e.0@, users_view(e.1@)),
        )
    }
}

/// The users subscribed to engine `e`: the first entry whose key is `e`
/// decides (with unique keys, the only one).
pub open spec fn cfg_lookup_from(
    cfg: Seq<(Seq<char>, Seq<UserView>)>,
    e: Seq<char>,
    k: int,
) -> Option<Seq<UserView>>
    decreases cfg.len() - k,
{
    if k < 0 || k >= cfg.len() {
        None
    } else if cfg[k].0 == e {
        Some(cfg[k].1)
    } else {
        cfg_lookup_from(cfg, e, k + 1)
    }
}

pub open spec fn cfg_lookup(cfg: Seq<(Seq<char>, Seq<UserView>)>, e: Seq<char>) -> Option<
    Seq<UserView>,
> {
    cfg_lookup_from(cfg, e, 0)
}

/// No two entries configure the same engine spelling.
pub open spec fn keys_unique(cfg: Seq<(Seq<char>, Seq<UserView>)>) -> bool {
    forall|x: int, y: int| 0 <= x < y < cfg.len() ==> cfg[x].0 != cfg[y].0
}

proof fn lemma_lookup_from_update(
    cfg: Seq<(Seq<char>, Seq<UserView>)>,
    i: int,
    us2: Seq<UserView>,
    e: Seq<char>,
    k: int,
)
    requires
        0 <= i < cfg.len(),
    ensures
        e != cfg[i].0 ==> cfg_lookup_from(cfg.update(i, (cfg[i].0, us2)), e, k)
            == cfg_lookup_from(cfg, e, k),
        (e == cfg[i].0 && 0 <= k <= i && (forall|j: int| k <= j < i ==> cfg[j].0 != e))
            ==> cfg_lookup_from(cfg.update(i, (cfg[i].0, us2)), e, k) == Some(us2),
    decreases cfg.len() - k,
{
    if 0 <= k < cfg.len() {
        lemma_lookup_from_update(cfg, i, us2, e, k + 1);
    }
}

proof fn lemma_lookup_from_push(
    cfg: Seq<(Seq<char>, Seq<UserView>)>,
    e0: Seq<char>,
    us: Seq<UserView>,
    e: Seq<char>,
    k: int,
)
    ensures
        e != e0 ==> cfg_lookup_from(cfg.push((e0, us)), e, k) == cfg_lookup_from(cfg, e, k),
        e == e0 && cfg_lookup_from(cfg, e, k) is None && 0 <= k <= cfg.len() ==> cfg_lookup_from(
            cfg.push((e0, us)),
            e,
            k,
        ) == Some(us),
    decreases cfg.len() + 1 - k,
{
    if k < cfg.len() + 1 {
        lemma_lookup_from_push(cfg, e0, us, e, k + 1);
        if 0 <= k < cfg.len() {
            assert(cfg.push((e0, us))[k] == cfg[k]);
        }
        if k == cfg.len() {
            assert(cfg.push((e0, us))[k] == (e0, us));
        }
    }
}

impl NotifyConfig {
    pub fn new(engines: Vec<(String, Vec<UserNotifyConfig>)>) -> (r: Self)
        ensures
            r.engines@ == engines@,
    {
        NotifyConfig { engines }
    }

    /// An empty configuration: no engine, no subscriber.
    pub fn empty() -> (r: Self)
        ensures
            r@ == Seq::<(Seq<char>, Seq<UserView>)>::empty(),
    {
        let r = NotifyConfig { engines: Vec::new() };
        proof {
            assert(r@ =~= Seq::<(Seq<char>, Seq<UserView>)>::empty());
        }
        r
    }

    /// Adds one subscription: the user is appended to the engine's entry,
    /// which is created when the engine is new. Every other engine's users
    /// are untouched, and distinct keys stay distinct.
    pub fn subscribe(&mut self, engine: String, user: UserNotifyConfig)
        ensures
            forall|e: Seq<char>| e != engine@ ==> cfg_lookup(final(self)@, e) == cfg_lookup(
                old(self)@,
                e,
            ),
            cfg_lookup(final(self)@, engine@) == Some(
                match cfg_lookup(old(self)@, engine@) {
                    Some(us) => us.push(user@),
                    None => seq![user@],
                },
            ),
            keys_unique(old(self)@) ==> keys_unique(final(self)@),
            cfg_lookup(old(self)@, engine@) is None ==> final(self)@ == old(self)@.push(
                (engine@, seq![user@]),
            ),
            cfg_lookup(old(self)@, engine@) is Some ==> exists|i: int|
                {
                    &&& 0 <= i < old(self)@.len()
                    &&& old(self)@[i].0 == engine@
                    &&& #[trigger] final(self)@ == old(self)@.update(
                        i,
                        (engine@, old(self)@[i].1.push(user@)),
                    )
                },
    {
        let ghost pre = self@;
        let ghost pre_eng = self.engines@;
        let ghost uv = user@;
        let ghost e0 = engine@;
        let n = self.engines.len();
        let mut i: usize = 0;
        while i < n
            invariant
                0 <= i <= n == self.engines@.len(),
                self@ == pre,
                self.engines@ == pre_eng,
                pre == old(self)@,
                e0 == engine@,
                uv == user@,
                forall|k: int| 0 <= k < i ==> self@[k].0 != e0,
            decreases n - i,
        {
            if self.engines[i].0 == engine {
                let mut entry = self.engines.remove(i);
                entry.1.push(user);
                let ghost us2 = users_view(entry.1@);
                let ghost ev = entry;
                self.engines.insert(i, entry);
                proof {
                    assert(pre[i as int] == (
                        pre_eng[i as int].0@,
                        users_view(pre_eng[i as int].1@),
                    ));
                    assert(ev.1@ == pre_eng[i as int].1@.push(user));
                    assert(ev.0@ == pre[i as int].0);
                    assert(us2 =~= pre[i as int].1.push(uv));
                    assert(self.engines@ =~= pre_eng.update(i as int, ev));
                    assert forall|j: int| 0 <= j < self@.len() implies self@[j] == pre.update(
                        i as int,
                        (pre[i as int].0, us2),
                    )[j] by {}
                    assert(self@ =~= pre.update(i as int, (pre[i as int].0, us2)));
                    assert forall|e: Seq<char>| e != e0 implies cfg_lookup(self@, e) == cfg_lookup(
                        pre,
                        e,
                    ) by {
                        lemma_lookup_from_update(pre, i as int, us2, e, 0);
                    }
                    lemma_lookup_from_update(pre, i as int, us2, e0, 0);
                    lemma_lookup_from_index(pre, e0, i as int);
                }
                return ;
            }
            proof {
                assert(self@[i as int].0 == self.engines@[i as int].0@);
            }
            i = i + 1;
        }
        proof {
            lemma_no_key_no_lookup(pre, e0, 0);
        }
        let mut users: Vec<UserNotifyConfig> = Vec::new();
        users.push(user);
        let ghost usv = users_view(users@);
        self.engines.push((engine, users));
        proof {
            assert(usv =~= seq![uv]);
            assert(self.engines@ =~= pre_eng.push(self.engines@.last()));
            assert forall|j: int| 0 <= j < self@.len() implies self@[j] == pre.push(
                (e0, usv),
            )[j] by {}
            assert(self@ =~= pre.push((e0, usv)));
            assert forall|e: Seq<char>| e != e0 implies cfg_lookup(self@, e) == cfg_lookup(
                pre,
                e,
            ) by {
                lemma_lookup_from_push(pre, e0, usv, e, 0);
            }
            lemma_lookup_from_push(pre, e0, usv, e0, 0);
            assert(keys_unique(pre) ==> keys_unique(self@)) by {
                if keys_unique(pre) {
                    assert forall|x: int, y: int| 0 <= x < y < self@.len() implies self@[x].0
                        != self@[y].0 by {
                        if y == self@.len() - 1 {
                            assert(self@[x].0 == pre[x].0);
                            assert(self@[y].0 == e0);
                        }
                    }
                }
            }
        }
    }
}

/// With no entry for `e` before `k`, the lookup from `k` finds the entry at
/// `i` whose key is `e`.
proof fn lemma_lookup_from_index(cfg: Seq<(Seq<char>, Seq<UserView>)>, e: Seq<char>, i: int)
    requires
        0 <= i < cfg.len(),
        cfg[i].0 == e,
        forall|j: int| 0 <= j < i ==> cfg[j].0 != e,
    ensures
        cfg_lookup(cfg, e) == Some(cfg[i].1),
{
    lemma_lookup_from_index_rec(cfg, e, i, 0);
}

proof fn lemma_lookup_from_index_rec(
    cfg: Seq<(Seq<char>, Seq<UserView>)>,
    e: Seq<char>,
    i: int,
    k: int,
)
    requires
        0 <= k <= i < cfg.len(),
        cfg[i].0 == e,
        forall|j: int| k <= j < i ==> cfg[j].0 != e,
    ensures
        cfg_lookup_from(cfg, e, k) == Some(cfg[i].1),
    decreases i - k,
{
    if k < i {
        lemma_lookup_from_index_rec(cfg, e, i, k + 1);
    }
}

/// With no entry keyed `e` at all, the lookup is empty.
proof fn lemma_no_key_no_lookup(cfg: Seq<(Seq<char>, Seq<UserView>)>, e: Seq<char>, k: int)
    requires
        forall|j: int| 0 <= j < cfg.len() ==> cfg[j].0 != e,
    ensures
        cfg_lookup_from(cfg, e, k) is None,
    decreases cfg.len() - k,
{
    if 0 <= k < cfg.len() {
        lemma_no_key_no_lookup(cfg, e, k + 1);
    }
}

fn notify_config_eq(a: &NotifyConfig, b: &NotifyConfig) -> (r: bool)
    ensures
        r == (a@ == b@),
{
    if a.engines.len() != b.engines.len() {
        assert(a@.len() != b@.len());
        return false;
    }
    let n = a.engines.len();
    let mut i: usize = 0;
    while i < n
        invariant
            0 <= i <= n,
            n == a.engines@.len() == b.engines@.len(),
            forall|k: int| 0 <= k < i ==> a@[k] == b@[k],
        decreases n - i,
    {
        if !(a.engines[i].0 == b.engines[i].0) {
            assert(a@[i as int].0 != b@[i as int].0);
            return false;
        }
        if !users_eq(&a.engines[i].1, &b.engines[i].1) {
            assert(a@[i as int].1 != b@[i as int].1);
            return false;
        }
        assert(a@[i as int] == b@[i as int]);
        i = i + 1;
    }
    assert(a@ =~= b@);
    true
}

/// Structural equality over the whole configuration, used to detect a config
/// change between refreshes.
impl PartialEq for NotifyConfig {
    fn eq(&self, other: &Self) -> (r: bool) {
        notify_config_eq(self, other)
    }
}

impl vstd::std_specs::cmp::PartialEqSpecImpl for NotifyConfig {
    open spec fn obeys_eq_spec() -> bool {
        true
    }

    open spec fn eq_spec(&self, other: &Self) -> bool {
        self@ == other@
    }
}

/// Startup options: where the configuration lives and where notifications
/// and log lines are delivered.
#[derive(Debug)]
pub struct CliOptions {
    pub config_url: String,
    pub notify_webhook: String,
    pub log_webhook: Option<String>,
}

} // verus!

