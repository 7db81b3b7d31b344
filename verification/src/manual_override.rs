//! Functions that are declared to be safe.

use crate::module_name::{str_eq, ModuleName};
use vstd::prelude::*;

verus! {

/// The functions that are safe whatever their sources look like: they import lazily, keep values
/// in caches, only mark or wrap what they decorate, or only build objects.
pub open spec fn is_declared_safe(name: Seq<char>) -> bool {
    ||| name == "_plotly_utils.importers.relative_import"@
    ||| name == "libfb.py.lazy_import.lazy_import"@
    ||| name == "f3.utils.decorators.cache"@
    ||| name == "libfb.py.decorators.lazy_property"@
    ||| name == "libfb.py.decorators.memoize_fast"@
    ||| name == "libfb.py.decorators.memoize_fast_0"@
    ||| name == "libfb.py.decorators.memoize_forever"@
    ||| name == "libfb.py.decorators.memoize_timed"@
    ||| name == "libfb.py.memoize.memoize_fast"@
    ||| name == "libfb.py.memoize.memoize_fast_0"@
    ||| name == "libfb.py.memoize.memoize_timed"@
    ||| name == "psutil._common.memoize"@
    ||| name == "psutil._common.memoize_when_activated"@
    ||| name == "collections.abc.Mapping.register"@
    ||| name == "collections.abc.Sequence.register"@
    ||| name == "collections.abc.Set.register"@
    ||| name == "bigcode.bcf.transformers.src.transformers.utils.logging.get_logger"@
    ||| name == "f3.logging.basic_logger.F3Logger"@
    ||| name == "os.environ.get"@
    ||| name == "oci.decorators.init_model_state_from_kwargs"@
    ||| name == "pytest.mark.parametrize"@
    ||| name == "transformers.utils.logging.get_logger"@
    ||| name == "libfb.py.asyncio.decorators.retryable"@
    ||| name == "libfb.py.asyncio.decorators.memoize_timed"@
    ||| name == "tracing.span"@
    ||| name == "async_lru.alru_cache"@
    ||| name == "confucius.analects.base.agentic_function.agent_function"@
    ||| name == "langchain_core.callbacks.manager.shielded"@
    ||| name == "langchain_core._api.deprecation.deprecated"@
    ||| name == "langchain_core._api.beta_decorator.beta"@
    ||| name == "langchain_core.prompts.ChatPromptTemplate.from_messages"@
    ||| name == "langchain_core.prompts.ChatPromptTemplate.from_template"@
    ||| name == "langchain_core.prompts.PromptTemplate.from_template"@
    ||| name == "langchain_core.prompts.PromptTemplate.from_file"@
    ||| name == "langchain_core.prompts.prompt.PromptTemplate.from_template"@
    ||| name == "langchain_core.prompts.prompt.PromptTemplate.from_file"@
    ||| name == "langchain_core.prompts.chat.ChatPromptTemplate.from_messages"@
    ||| name == "langchain_core.prompts.chat.HumanMessagePromptTemplate.from_template"@
    ||| name == "langchain_core.prompts.chat.SystemMessagePromptTemplate.from_template"@
    ||| name == "attr.s"@
    ||| name == "attr.attrs"@
    ||| name == "_pytest.config.hookimpl"@
    ||| name == "decorator.decorator"@
    ||| name == "dns._features.have"@
    ||| name == "dns.name.from_text"@
    ||| name == "dns.name.IDNA2003Codec"@
    ||| name == "dns.name.IDNA2008Codec"@
    ||| name == "dns.name.Name"@
    ||| name == "google.auth._helpers.copy_docstring"@
    ||| name == "markdown.util.deprecated"@
    ||| name == "model_context_protocol.common.decorators.mcp_client_connect_decorator.mcp_client_connect"@
    ||| name == "nltk.internals.deprecated"@
    ||| name == "sympy.utilities.decorator.deprecated"@
    ||| name == "torch.testing._internal.common_utils.skip_but_pass_in_sandcastle_if"@
    ||| name == "transformers.models.auto.configuration_auto.replace_list_option_in_docstrings"@
    ||| name == "artillery.artillery2.api.cython.agent_tracing.devmate.decorators.devmate_trace_action"@
    ||| name == "libfb.py.asyncio.await_utils.await_sync_decorator"@
    ||| name == "fblearner.flow.util.python_utils.call_with_retries"@
    ||| name == "devai.src.core.model.experimental.base.reclassify_class_errors"@
}

/// Whether a function is declared to be safe.
pub fn declared_safe(func: &ModuleName) -> (res: bool)
    ensures
        res == is_declared_safe(func@),
{
    let name = func.as_str();
    str_eq(name, "_plotly_utils.importers.relative_import")
        || str_eq(name, "libfb.py.lazy_import.lazy_import")
        || str_eq(name, "f3.utils.decorators.cache")
        || str_eq(name, "libfb.py.decorators.lazy_property")
        || str_eq(name, "libfb.py.decorators.memoize_fast")
        || str_eq(name, "libfb.py.decorators.memoize_fast_0")
        || str_eq(name, "libfb.py.decorators.memoize_forever")
        || str_eq(name, "libfb.py.decorators.memoize_timed")
        || str_eq(name, "libfb.py.memoize.memoize_fast")
        || str_eq(name, "libfb.py.memoize.memoize_fast_0")
        || str_eq(name, "libfb.py.memoize.memoize_timed")
        || str_eq(name, "psutil._common.memoize")
        || str_eq(name, "psutil._common.memoize_when_activated")
        || str_eq(name, "collections.abc.Mapping.register")
        || str_eq(name, "collections.abc.Sequence.register")
        || str_eq(name, "collections.abc.Set.register")
        || str_eq(name, "bigcode.bcf.transformers.src.transformers.utils.logging.get_logger")
        || str_eq(name, "f3.logging.basic_logger.F3Logger")
        || str_eq(name, "os.environ.get")
        || str_eq(name, "oci.decorators.init_model_state_from_kwargs")
        || str_eq(name, "pytest.mark.parametrize")
        || str_eq(name, "transformers.utils.logging.get_logger")
        || str_eq(name, "libfb.py.asyncio.decorators.retryable")
        || str_eq(name, "libfb.py.asyncio.decorators.memoize_timed")
        || str_eq(name, "tracing.span")
        || str_eq(name, "async_lru.alru_cache")
        || str_eq(name, "confucius.analects.base.agentic_function.agent_function")
        || str_eq(name, "langchain_core.callbacks.manager.shielded")
        || str_eq(name, "langchain_core._api.deprecation.deprecated")
        || str_eq(name, "langchain_core._api.beta_decorator.beta")
        || str_eq(name, "langchain_core.prompts.ChatPromptTemplate.from_messages")
        || str_eq(name, "langchain_core.prompts.ChatPromptTemplate.from_template")
        || str_eq(name, "langchain_core.prompts.PromptTemplate.from_template")
        || str_eq(name, "langchain_core.prompts.PromptTemplate.from_file")
        || str_eq(name, "langchain_core.prompts.prompt.PromptTemplate.from_template")
        || str_eq(name, "langchain_core.prompts.prompt.PromptTemplate.from_file")
        || str_eq(name, "langchain_core.prompts.chat.ChatPromptTemplate.from_messages")
        || str_eq(name, "langchain_core.prompts.chat.HumanMessagePromptTemplate.from_template")
        || str_eq(name, "langchain_core.prompts.chat.SystemMessagePromptTemplate.from_template")
        || str_eq(name, "attr.s")
        || str_eq(name, "attr.attrs")
        || str_eq(name, "_pytest.config.hookimpl")
        || str_eq(name, "decorator.decorator")
        || str_eq(name, "dns._features.have")
        || str_eq(name, "dns.name.from_text")
        || str_eq(name, "dns.name.IDNA2003Codec")
        || str_eq(name, "dns.name.IDNA2008Codec")
        || str_eq(name, "dns.name.Name")
        || str_eq(name, "google.auth._helpers.copy_docstring")
        || str_eq(name, "markdown.util.deprecated")
        || str_eq(name, "model_context_protocol.common.decorators.mcp_client_connect_decorator.mcp_client_connect")
        || str_eq(name, "nltk.internals.deprecated")
        || str_eq(name, "sympy.utilities.decorator.deprecated")
        || str_eq(name, "torch.testing._internal.common_utils.skip_but_pass_in_sandcastle_if")
        || str_eq(name, "transformers.models.auto.configuration_auto.replace_list_option_in_docstrings")
        || str_eq(name, "artillery.artillery2.api.cython.agent_tracing.devmate.decorators.devmate_trace_action")
        || str_eq(name, "libfb.py.asyncio.await_utils.await_sync_decorator")
        || str_eq(name, "fblearner.flow.util.python_utils.call_with_retries")
        || str_eq(name, "devai.src.core.model.experimental.base.reclassify_class_errors")
}

} // verus!
