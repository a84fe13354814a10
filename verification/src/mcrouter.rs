use vstd::prelude::*;

verus! {

/// Command line arguments that affect mcrouter usage.
pub struct McrouterArgs {
    /// Use local McRouter for rate limits.
    pub enable_mcrouter: bool,
}

/// The host-process settings that argument processing may adjust, modelled
/// as plain values: whether this build of the host can reach a local
/// rate-limiting proxy at all, and whether it should prefer one.
pub struct Environment {
    pub local_rate_limit_proxy_available: bool,
    pub prefer_local_rate_limit_proxy: bool,
}

/// A repository- or process-setup request that cannot be honoured.
#[derive(Clone, Copy, Debug, PartialEq, Eq, Structural)]
pub enum ConfigurationError {
    RateLimitProxyUnavailable,
}

pub struct McrouterArgExtension;

impl McrouterArgExtension {
    /// One-shot initialization step, run once before any concurrent work
    /// begins: when the flag asks for it and the host supports it, record
    /// the preference for a local rate-limiting proxy; when the host cannot
    /// honour the request, refuse it; without the flag, leave the
    /// environment untouched. This toggle is process-wide and has no
    /// interaction with the snapshot pipeline.
    pub fn process_args(&self, args: &McrouterArgs, env: &mut Environment) -> (r: Result<
        (),
        ConfigurationError,
    >)
        ensures
            final(env).local_rate_limit_proxy_available
                == old(env).local_rate_limit_proxy_available,
            !args.enable_mcrouter ==> (r is Ok && final(env).prefer_local_rate_limit_proxy
                == old(env).prefer_local_rate_limit_proxy),
            (args.enable_mcrouter && old(env).local_rate_limit_proxy_available) ==> (r is Ok
                && final(env).prefer_local_rate_limit_proxy),
            (args.enable_mcrouter && !old(env).local_rate_limit_proxy_available) ==> (r matches Err(
                e,
            ) && e == ConfigurationError::RateLimitProxyUnavailable
                && final(env).prefer_local_rate_limit_proxy
                == old(env).prefer_local_rate_limit_proxy),
    {
        if !args.enable_mcrouter {
            return Ok(());
        }
        if env.local_rate_limit_proxy_available {
            env.prefer_local_rate_limit_proxy = true;
            Ok(())
        } else {
            Err(ConfigurationError::RateLimitProxyUnavailable)
        }
    }
}

} // verus!
